//! What the onchain program stores and signs, as plain values.
//!
//! The program's own crate lays these values out in accounts, derives their addresses and computes
//! their digests. The functions of this library take the outcomes of those computations.

use crate::bytes::same_array;
use vstd::bytes::spec_u64_from_le_bytes;
use vstd::prelude::*;

verus! {

/// The terms of an epoch.
#[derive(Clone, Copy, Debug, PartialEq, Eq)]
pub struct EpochConfigurationV1 {
    pub pool: [u8; 32],
    pub epoch_id: [u8; 32],
    pub base_mint: [u8; 32],
    pub quote_mint: [u8; 32],
    pub base_lot_atoms: u64,
    pub quote_atoms_per_lot: u64,
    pub minimum_count: u32,
    pub lock_threshold: u8,
    pub settlement_threshold: u8,
    pub keypers: [[u8; 32]; 3],
    pub lock_deadline: i64,
    pub abort_deadline: i64,
}

/// Whether two sets of keypers are the same.
pub fn same_keypers(a: &[[u8; 32]; 3], b: &[[u8; 32]; 3]) -> (same: bool)
    ensures
        same == (*a == *b),
{
    let same = same_array(&a[0], &b[0]) && same_array(&a[1], &b[1]) && same_array(&a[2], &b[2]);
    proof {
        if same {
            assert(a@[0] == b@[0] && a@[1] == b@[1] && a@[2] == b@[2]);
            assert(*a =~= *b);
        }
    }
    same
}

impl EpochConfigurationV1 {
    /// Whether two configurations are the same.
    pub fn same(&self, other: &Self) -> (same: bool)
        ensures
            same == (*self == *other),
    {
        same_array(&self.pool, &other.pool) && same_array(&self.epoch_id, &other.epoch_id)
            && same_array(&self.base_mint, &other.base_mint) && same_array(
            &self.quote_mint,
            &other.quote_mint,
        ) && self.base_lot_atoms == other.base_lot_atoms && self.quote_atoms_per_lot
            == other.quote_atoms_per_lot && self.minimum_count == other.minimum_count
            && self.lock_threshold == other.lock_threshold && self.settlement_threshold
            == other.settlement_threshold && same_keypers(&self.keypers, &other.keypers)
            && self.lock_deadline == other.lock_deadline && self.abort_deadline
            == other.abort_deadline
    }
}

/// Where an epoch stands.
#[derive(Clone, Copy, Debug, PartialEq, Eq, Structural)]
pub enum EpochTerminalState {
    Open,
    Locked,
    Settled,
    Aborted,
    Expired,
}

/// The account of an epoch.
#[derive(Clone, Copy, Debug, PartialEq, Eq)]
pub struct EpochStateV1 {
    pub epoch_bump: u8,
    pub terminal_state: EpochTerminalState,
    pub residual_side: u8,
    pub pool: [u8; 32],
    pub epoch_id: [u8; 32],
    pub configuration_hash: [u8; 32],
    pub pre_balance_root: [u8; 32],
    pub member_root: [u8; 32],
    pub lock_digest: [u8; 32],
    pub result_commitment: [u8; 32],
    pub settlement_digest: [u8; 32],
    pub lock_nonce: [u8; 32],
    pub settlement_nonce: [u8; 32],
    pub member_count: u32,
    pub minimum_count: u32,
    pub residual_lots: u32,
    pub base_lot_atoms: u64,
    pub quote_atoms_per_lot: u64,
    pub lock_deadline: i64,
    pub abort_deadline: i64,
}

/// The account of a pool.
#[derive(Clone, Copy, Debug, PartialEq, Eq)]
pub struct PoolStateV1 {
    pub pool_bump: u8,
    pub vault_bump: u8,
    pub lock_threshold: u8,
    pub settlement_threshold: u8,
    pub operator: [u8; 32],
    pub base_mint: [u8; 32],
    pub quote_mint: [u8; 32],
    pub pool_base_vault: [u8; 32],
    pub pool_quote_vault: [u8; 32],
    pub venue_authority: [u8; 32],
    pub venue_base_account: [u8; 32],
    pub venue_quote_account: [u8; 32],
    pub keypers: [[u8; 32]; 3],
    pub base_lot_atoms: u64,
}

/// The terms of an epoch, as its two accounts give them.
pub open spec fn configuration_of(
    state: EpochStateV1,
    pool: PoolStateV1,
) -> EpochConfigurationV1 {
    EpochConfigurationV1 {
        pool: state.pool,
        epoch_id: state.epoch_id,
        base_mint: pool.base_mint,
        quote_mint: pool.quote_mint,
        base_lot_atoms: pool.base_lot_atoms,
        quote_atoms_per_lot: state.quote_atoms_per_lot,
        minimum_count: state.minimum_count,
        lock_threshold: pool.lock_threshold,
        settlement_threshold: pool.settlement_threshold,
        keypers: pool.keypers,
        lock_deadline: state.lock_deadline,
        abort_deadline: state.abort_deadline,
    }
}

/// The terms of an epoch, as its two accounts give them.
pub fn epoch_configuration(state: &EpochStateV1, pool: &PoolStateV1) -> (configuration:
    EpochConfigurationV1)
    ensures
        configuration == configuration_of(*state, *pool),
{
    EpochConfigurationV1 {
        pool: state.pool,
        epoch_id: state.epoch_id,
        base_mint: pool.base_mint,
        quote_mint: pool.quote_mint,
        base_lot_atoms: pool.base_lot_atoms,
        quote_atoms_per_lot: state.quote_atoms_per_lot,
        minimum_count: state.minimum_count,
        lock_threshold: pool.lock_threshold,
        settlement_threshold: pool.settlement_threshold,
        keypers: pool.keypers,
        lock_deadline: state.lock_deadline,
        abort_deadline: state.abort_deadline,
    }
}

/// What keypers sign to lock an epoch.
#[derive(Clone, Copy, Debug, PartialEq, Eq)]
pub struct LockPayloadV1 {
    pub epoch_account: [u8; 32],
    pub configuration_hash: [u8; 32],
    pub pre_balance_root: [u8; 32],
    pub member_root: [u8; 32],
    pub member_count: u32,
    pub lock_deadline: i64,
    pub lock_nonce: [u8; 32],
}

/// What keypers sign to settle an epoch.
#[derive(Clone, Copy, Debug, PartialEq, Eq)]
pub struct SettlementPayloadV1 {
    pub epoch_account: [u8; 32],
    pub lock_digest: [u8; 32],
    pub result_commitment: [u8; 32],
    pub residual_side: u8,
    pub residual_lots: u32,
    pub base_lot_atoms: u64,
    pub quote_atoms_per_lot: u64,
    pub base_mint: [u8; 32],
    pub quote_mint: [u8; 32],
    pub pool_base_vault: [u8; 32],
    pub pool_quote_vault: [u8; 32],
    pub venue_base_account: [u8; 32],
    pub venue_quote_account: [u8; 32],
    pub venue_authority: [u8; 32],
    pub settlement_nonce: [u8; 32],
}

/// An address that the program derives, with its bump.
#[derive(Clone, Copy, Debug, PartialEq, Eq)]
pub struct DerivedAddress {
    pub address: [u8; 32],
    pub bump: u8,
}

/// What the clock account says, as far as it is read.
#[derive(Clone, Copy, Debug, PartialEq, Eq, Structural)]
pub struct ClockRead {
    pub slot: u64,
    pub unix_timestamp: i64,
}

/// The clock that account data holds: the slot in the first eight bytes and the timestamp in the
/// fifth eight. Shorter data holds none.
pub open spec fn clock_of(data: Seq<u8>) -> Option<ClockRead> {
    if data.len() < 40 {
        None
    } else {
        Some(
            ClockRead {
                slot: spec_u64_from_le_bytes(data.subrange(0, 8)),
                unix_timestamp: spec_u64_from_le_bytes(data.subrange(32, 40)) as i64,
            },
        )
    }
}

/// `bincode::deserialize` of `solana_program::clock::Clock`: five integers of eight bytes each, in
/// little-endian order, of which the first is the slot and the last the timestamp. Bytes behind
/// them are ignored, and too few bytes are refused.
#[verifier::external_body]
pub(crate) fn decode_clock(data: &[u8]) -> (clock: Option<ClockRead>)
    ensures
        clock == clock_of(data@),
{
    let clock: solana_program::clock::Clock = bincode::deserialize(data).ok()?;
    Some(ClockRead { slot: clock.slot, unix_timestamp: clock.unix_timestamp })
}

/// The time that a clock account holds.
pub fn clock_time(data: &[u8]) -> (time: Option<i64>)
    ensures
        time == (match clock_of(data@) {
            Some(clock) => Some(clock.unix_timestamp),
            None => None,
        }),
{
    match decode_clock(data) {
        Some(clock) => Some(clock.unix_timestamp),
        None => None,
    }
}

/// A capability: the terminal epoch that a confirmed read of its account showed.
#[derive(Clone, Copy, Debug, PartialEq, Eq)]
pub struct ConfirmedTerminalEpoch {
    epoch_account: [u8; 32],
    epoch_id: [u8; 32],
    terminal_state: EpochTerminalState,
    confirmation_slot: u64,
}

/// Whether an epoch ended without a settlement.
pub open spec fn ended_unsettled(state: EpochTerminalState) -> bool {
    state == EpochTerminalState::Aborted || state == EpochTerminalState::Expired
}

impl ConfirmedTerminalEpoch {
    /// The epoch that ended.
    pub closed spec fn epoch(&self) -> [u8; 32] {
        self.epoch_id
    }

    /// The account that was read.
    pub closed spec fn account(&self) -> [u8; 32] {
        self.epoch_account
    }

    /// The slot of the read.
    pub closed spec fn slot(&self) -> u64 {
        self.confirmation_slot
    }

    /// Every such capability is for an epoch that ended without a settlement.
    pub closed spec fn wf(&self) -> bool {
        ended_unsettled(self.terminal_state)
    }

    /// The capability for an epoch that was read as aborted or expired; any other state gives none.
    pub fn new(
        epoch_account: [u8; 32],
        epoch_id: [u8; 32],
        terminal_state: EpochTerminalState,
        confirmation_slot: u64,
    ) -> (terminal: Option<Self>)
        ensures
            match terminal {
                Some(terminal) => ended_unsettled(terminal_state) && terminal.wf()
                    && terminal.epoch() == epoch_id && terminal.account() == epoch_account
                    && terminal.slot() == confirmation_slot,
                None => !ended_unsettled(terminal_state),
            },
    {
        match terminal_state {
            EpochTerminalState::Aborted | EpochTerminalState::Expired => Some(
                ConfirmedTerminalEpoch {
                    epoch_account,
                    epoch_id,
                    terminal_state,
                    confirmation_slot,
                },
            ),
            _ => None,
        }
    }

    pub fn epoch_id(&self) -> (epoch_id: [u8; 32])
        ensures
            epoch_id == self.epoch(),
    {
        self.epoch_id
    }

    pub fn epoch_account(&self) -> (epoch_account: [u8; 32])
        ensures
            epoch_account == self.account(),
    {
        self.epoch_account
    }

    pub fn confirmation_slot(&self) -> (slot: u64)
        ensures
            slot == self.slot(),
    {
        self.confirmation_slot
    }
}

} // verus!

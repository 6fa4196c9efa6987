//! Token instructions, token accounts and loader accounts, read from their data.

use solana_program::program_pack::Pack;
use vstd::bytes::{spec_u32_from_le_bytes, spec_u64_from_le_bytes};
use vstd::prelude::*;

verus! {

/// The amount and the decimals of a checked transfer, where data is such an instruction: the tag
/// twelve, eight bytes of amount, one byte of decimals, and anything behind.
pub open spec fn transfer_of(data: Seq<u8>) -> Option<(u64, u8)> {
    if data.len() >= 10 && data[0] == 12 {
        Some((spec_u64_from_le_bytes(data.subrange(1, 9)), data[9]))
    } else {
        None
    }
}

/// Whether data is a token instruction of any sort.
pub uninterp spec fn token_instruction(data: Seq<u8>) -> bool;

/// `spl_token_interface::instruction::TokenInstruction::unpack`: whether data is an instruction
/// depends on the data. A checked transfer is one, and comes back with its amount and its decimals;
/// any other instruction comes back without.
#[verifier::external_body]
pub(crate) fn unpack_token(data: &[u8]) -> (instruction: Option<Option<(u64, u8)>>)
    ensures
        match instruction {
            Some(transfer) => token_instruction(data@) && transfer == transfer_of(data@),
            None => !token_instruction(data@) && transfer_of(data@) is None,
        },
{
    match spl_token_interface::instruction::TokenInstruction::unpack(data) {
        Ok(
            spl_token_interface::instruction::TokenInstruction::TransferChecked {
                amount,
                decimals,
            },
        ) => Some(Some((amount, decimals))),
        Ok(_) => Some(None),
        Err(_) => None,
    }
}

/// Whether data is a checked transfer of an amount of a token without decimals.
pub open spec fn transfers(data: Seq<u8>, amount: u64) -> bool {
    transfer_of(data) == Some((amount, 0u8))
}

/// Whether data is a checked transfer of an amount of a token without decimals.
pub fn is_transfer(data: &[u8], amount: u64) -> (is: bool)
    ensures
        is == transfers(data@, amount),
{
    match unpack_token(data) {
        Some(Some((actual, decimals))) => actual == amount && decimals == 0,
        _ => false,
    }
}

/// Whether four bytes are the tag of an absent or a present value.
pub open spec fn option_tag(data: Seq<u8>, at: int) -> bool {
    data[at] <= 1 && data[at + 1] == 0 && data[at + 2] == 0 && data[at + 3] == 0
}

/// What a mint says, as far as it is read.
#[derive(Clone, Copy, Debug, PartialEq, Eq, Structural)]
pub struct MintRead {
    pub decimals: u8,
    pub has_mint_authority: bool,
    pub has_freeze_authority: bool,
}

/// The mint that account data holds, where it holds an initialized one: 82 bytes, with the mint
/// authority at the start, the decimals and the flag behind the supply, and the freeze authority
/// last.
pub open spec fn mint_of(data: Seq<u8>) -> Option<MintRead> {
    if data.len() == 82 && option_tag(data, 0) && data[45] == 1 && option_tag(data, 46) {
        Some(
            MintRead {
                decimals: data[44],
                has_mint_authority: data[0] == 1,
                has_freeze_authority: data[46] == 1,
            },
        )
    } else {
        None
    }
}

/// `spl_token_interface::state::Mint::unpack`, as far as the decimals and the two authorities.
#[verifier::external_body]
pub(crate) fn unpack_mint(data: &[u8]) -> (mint: Option<MintRead>)
    ensures
        mint == mint_of(data@),
{
    let mint = spl_token_interface::state::Mint::unpack(data).ok()?;
    Some(
        MintRead {
            decimals: mint.decimals,
            has_mint_authority: mint.mint_authority.is_some(),
            has_freeze_authority: mint.freeze_authority.is_some(),
        },
    )
}

/// What a token account says, as far as it is read.
#[derive(Clone, Copy, Debug, PartialEq, Eq)]
pub struct TokenAccountRead {
    pub mint: [u8; 32],
    pub owner: [u8; 32],
    pub initialized: bool,
}

/// Whether account data holds a token account that is initialized or frozen: 165 bytes, with the
/// mint, the owner, the amount, the delegate, the state, and three more values of which two may be
/// absent.
pub open spec fn is_token_account(data: Seq<u8>) -> bool {
    &&& data.len() == 165
    &&& option_tag(data, 72)
    &&& 1 <= data[108] <= 2
    &&& option_tag(data, 109)
    &&& option_tag(data, 129)
}

/// `spl_token_interface::state::Account::unpack`, as far as the mint, the owner and the state.
#[verifier::external_body]
pub(crate) fn unpack_token_account(data: &[u8]) -> (account: Option<TokenAccountRead>)
    ensures
        match account {
            Some(account) => is_token_account(data@) && account.mint@ == data@.subrange(0, 32)
                && account.owner@ == data@.subrange(32, 64) && account.initialized == (data@[108]
                == 1),
            None => !is_token_account(data@),
        },
{
    let account = spl_token_interface::state::Account::unpack(data).ok()?;
    let initialized = spl_token_interface::state::AccountState::Initialized;
    Some(
        TokenAccountRead {
            mint: account.mint.to_bytes(),
            owner: account.owner.to_bytes(),
            initialized: account.state == initialized,
        },
    )
}

/// Whether account data holds a program that names where its code stands: the tag two and the
/// address.
pub open spec fn is_program(data: Seq<u8>) -> bool {
    data.len() >= 36 && spec_u32_from_le_bytes(data.subrange(0, 4)) == 2
}

/// `bincode::deserialize` of `solana_loader_v3_interface::state::UpgradeableLoaderState`, as far as
/// it tells a program and the address that it names.
#[verifier::external_body]
pub(crate) fn read_program(data: &[u8]) -> (address: Option<[u8; 32]>)
    ensures
        match address {
            Some(address) => is_program(data@) && address@ == data@.subrange(4, 36),
            None => !is_program(data@),
        },
{
    match bincode::deserialize(data) {
        Ok(
            solana_loader_v3_interface::state::UpgradeableLoaderState::Program {
                programdata_address,
            },
        ) => Some(programdata_address.to_bytes()),
        _ => None,
    }
}

/// The metadata of a program's code.
#[derive(Clone, Copy, Debug, PartialEq, Eq)]
pub struct ProgramDataRead {
    pub slot: u64,
    pub upgrade_authority: Option<[u8; 32]>,
}

/// Whether 45 bytes are the metadata of a program's code: the tag three, the slot, and an authority
/// that may be absent.
pub open spec fn is_program_data(metadata: Seq<u8>) -> bool {
    spec_u32_from_le_bytes(metadata.subrange(0, 4)) == 3 && metadata[12] <= 1
}

/// `bincode::deserialize` of `solana_loader_v3_interface::state::UpgradeableLoaderState`, as far as
/// it tells a program's code, its slot and its authority, on the 45 bytes that
/// `UpgradeableLoaderState::size_of_programdata_metadata` counts.
#[verifier::external_body]
pub(crate) fn read_program_data(metadata: &[u8]) -> (state: Option<ProgramDataRead>)
    requires
        metadata@.len() == 45,
    ensures
        match state {
            Some(state) => is_program_data(metadata@) && state.slot == spec_u64_from_le_bytes(
                metadata@.subrange(4, 12),
            ) && match state.upgrade_authority {
                Some(authority) => metadata@[12] == 1 && authority@ == metadata@.subrange(13, 45),
                None => metadata@[12] == 0,
            },
            None => !is_program_data(metadata@),
        },
{
    match bincode::deserialize(metadata) {
        Ok(
            solana_loader_v3_interface::state::UpgradeableLoaderState::ProgramData {
                slot,
                upgrade_authority_address,
            },
        ) => {
            let upgrade_authority = upgrade_authority_address.map(|key| key.to_bytes());
            Some(ProgramDataRead { slot, upgrade_authority })
        },
        _ => None,
    }
}

/// A transfer is instruction twelve with its amount and its decimals; one of an amount of a token without
/// decimals has none.
pub proof fn law_transfers_are_exact(data: Seq<u8>, amount: u64, decimals: u8)
    ensures
        transfer_of(data) == Some((amount, decimals)) <==> {
            &&& data.len() >= 10
            &&& data[0] == 12
            &&& spec_u64_from_le_bytes(data.subrange(1, 9)) == amount
            &&& data[9] == decimals
        },
        transfers(data, amount) <==> {
            &&& data.len() >= 10
            &&& data[0] == 12
            &&& spec_u64_from_le_bytes(data.subrange(1, 9)) == amount
            &&& data[9] == 0
        },
{
}

/// A mint is initialized, of its length, and tells its decimals and whether anyone may mint or freeze.
pub proof fn law_mints_are_exact(data: Seq<u8>, mint: MintRead)
    ensures
        mint_of(data) == Some(mint) <==> {
            &&& data.len() == 82
            &&& data[0] <= 1 && data[1] == 0 && data[2] == 0 && data[3] == 0
            &&& data[45] == 1
            &&& data[46] <= 1 && data[47] == 0 && data[48] == 0 && data[49] == 0
            &&& mint.decimals == data[44]
            &&& mint.has_mint_authority <==> data[0] == 1
            &&& mint.has_freeze_authority <==> data[46] == 1
        },
{
}

/// A token account has its length, a state of initialized or frozen, and sound options.
pub proof fn law_token_accounts_are_exact(data: Seq<u8>)
    ensures
        is_token_account(data) <==> {
            &&& data.len() == 165
            &&& data[72] <= 1 && data[73] == 0 && data[74] == 0 && data[75] == 0
            &&& data[108] == 1 || data[108] == 2
            &&& data[109] <= 1 && data[110] == 0 && data[111] == 0 && data[112] == 0
            &&& data[129] <= 1 && data[130] == 0 && data[131] == 0 && data[132] == 0
        },
{
}

/// A program's account says that it is one, and so does the account of its data.
pub proof fn law_program_kinds_are_exact(data: Seq<u8>)
    ensures
        is_program(data) <==> data.len() >= 36 && spec_u32_from_le_bytes(data.subrange(0, 4)) == 2,
        is_program_data(data) <==> spec_u32_from_le_bytes(data.subrange(0, 4)) == 3 && data[12]
            <= 1,
{
}

} // verus!

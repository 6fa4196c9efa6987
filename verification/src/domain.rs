//! The fixed-width order that a client signs and encrypts.

use crate::bytes::{append, is_zero, read_array, zeros};
use crate::text::{decimal, push_decimal, push_text};
use vstd::bytes::{
    lemma_auto_spec_u32_to_from_le_bytes, lemma_auto_spec_u64_to_from_le_bytes,
    spec_u32_from_le_bytes, spec_u32_to_le_bytes, spec_u64_from_le_bytes, spec_u64_to_le_bytes,
    u32_from_le_bytes, u32_to_le_bytes, u64_from_le_bytes, u64_to_le_bytes,
};
use vstd::prelude::*;
use vstd::slice::slice_subrange;

verus! {

pub const INTENT_VERSION: u8 = 1;

pub const INTENT_LEN: usize = 128;

pub const PADDING_START: usize = 94;

/// The only two order directions accepted by the v1 reference market.
#[derive(Clone, Copy, Debug, PartialEq, Eq, Structural)]
pub enum Side {
    Buy,
    Sell,
}

impl Side {
    /// The byte that stands for a direction on the wire.
    pub open spec fn code(self) -> u8 {
        match self {
            Side::Buy => 0,
            Side::Sell => 1,
        }
    }

    /// The byte that stands for a direction on the wire.
    pub fn to_code(self) -> (code: u8)
        ensures
            code == self.code(),
    {
        match self {
            Side::Buy => 0,
            Side::Sell => 1,
        }
    }

    /// The direction that a byte stands for; any byte but the two is refused.
    pub fn from_code(value: u8) -> (side: Result<Self, ProtocolError>)
        ensures
            match side {
                Ok(side) => value == side.code(),
                Err(error) => value > 1 && error == ProtocolError::InvalidSide(value),
            },
    {
        match value {
            0 => Ok(Side::Buy),
            1 => Ok(Side::Sell),
            _ => Err(ProtocolError::InvalidSide(value)),
        }
    }
}

/// A strict decoding or economic validation failure.
#[derive(Clone, Debug, PartialEq, Eq, Structural)]
pub enum ProtocolError {
    InvalidIntentLength(usize),
    InvalidVersion(u8),
    InvalidSide(u8),
    InvalidLots(u32),
    InvalidLimitPrice,
    NonZeroPadding,
}

impl ProtocolError {
    /// The sentence that describes a failure.
    pub open spec fn text(self) -> Seq<char> {
        match self {
            ProtocolError::InvalidIntentLength(length) => "intent must be 128 bytes, got "@
                + decimal(length as nat),
            ProtocolError::InvalidVersion(version) => "unsupported intent version "@ + decimal(
                version as nat,
            ),
            ProtocolError::InvalidSide(side) => "invalid intent side "@ + decimal(side as nat),
            ProtocolError::InvalidLots(lots) => "v1 intent must contain one lot, got "@ + decimal(
                lots as nat,
            ),
            ProtocolError::InvalidLimitPrice => "limit price must be non-zero"@,
            ProtocolError::NonZeroPadding => "intent padding must be zero"@,
        }
    }

    /// The sentence that describes a failure.
    pub fn message(&self) -> (message: String)
        ensures
            message@ == self.text(),
    {
        let mut out: String = String::new();
        match self {
            ProtocolError::InvalidIntentLength(length) => {
                push_text(&mut out, "intent must be 128 bytes, got ");
                push_decimal(&mut out, *length as u64);
            },
            ProtocolError::InvalidVersion(version) => {
                push_text(&mut out, "unsupported intent version ");
                push_decimal(&mut out, *version as u64);
            },
            ProtocolError::InvalidSide(side) => {
                push_text(&mut out, "invalid intent side ");
                push_decimal(&mut out, *side as u64);
            },
            ProtocolError::InvalidLots(lots) => {
                push_text(&mut out, "v1 intent must contain one lot, got ");
                push_decimal(&mut out, *lots as u64);
            },
            ProtocolError::InvalidLimitPrice => push_text(&mut out, "limit price must be non-zero"),
            ProtocolError::NonZeroPadding => push_text(&mut out, "intent padding must be zero"),
        }
        assert(out@ =~= self.text());
        out
    }
}

/// What an order body says.
pub struct IntentFields {
    pub side: Side,
    pub lots: u32,
    pub limit_price: u64,
    pub epoch_id: [u8; 32],
    pub participant_id: [u8; 32],
    pub client_nonce: [u8; 16],
}

/// Whether the economics of an order are those of the v1 market: one lot at a non-zero limit.
pub open spec fn intent_valid(fields: IntentFields) -> bool {
    fields.lots == 1 && fields.limit_price != 0
}

/// The wire form of an order body.
pub open spec fn intent_bytes(fields: IntentFields) -> Seq<u8> {
    seq![INTENT_VERSION, fields.side.code()] + spec_u32_to_le_bytes(fields.lots)
        + spec_u64_to_le_bytes(fields.limit_price) + fields.epoch_id@ + fields.participant_id@
        + fields.client_nonce@ + zeros(34)
}

/// Why a byte string is no order body, where it is none.
pub open spec fn intent_error(bytes: Seq<u8>) -> Option<ProtocolError> {
    if bytes.len() != INTENT_LEN {
        Some(ProtocolError::InvalidIntentLength(bytes.len() as usize))
    } else if bytes[0] != INTENT_VERSION {
        Some(ProtocolError::InvalidVersion(bytes[0]))
    } else if bytes.subrange(94, 128) != zeros(34) {
        Some(ProtocolError::NonZeroPadding)
    } else if bytes[1] > 1 {
        Some(ProtocolError::InvalidSide(bytes[1]))
    } else if spec_u32_from_le_bytes(bytes.subrange(2, 6)) != 1 {
        Some(ProtocolError::InvalidLots(spec_u32_from_le_bytes(bytes.subrange(2, 6))))
    } else if spec_u64_from_le_bytes(bytes.subrange(6, 14)) == 0 {
        Some(ProtocolError::InvalidLimitPrice)
    } else {
        None
    }
}

/// Where each field of an order body stands in its wire form.
pub proof fn lemma_intent_layout(fields: IntentFields)
    ensures
        intent_bytes(fields).len() == 128,
        intent_bytes(fields)[0] == INTENT_VERSION,
        intent_bytes(fields)[1] == fields.side.code(),
        intent_bytes(fields).subrange(2, 6) == spec_u32_to_le_bytes(fields.lots),
        intent_bytes(fields).subrange(6, 14) == spec_u64_to_le_bytes(fields.limit_price),
        intent_bytes(fields).subrange(14, 46) == fields.epoch_id@,
        intent_bytes(fields).subrange(46, 78) == fields.participant_id@,
        intent_bytes(fields).subrange(78, 94) == fields.client_nonce@,
        intent_bytes(fields).subrange(94, 128) == zeros(34),
{
    lemma_auto_spec_u32_to_from_le_bytes();
    lemma_auto_spec_u64_to_from_le_bytes();
    let bytes = intent_bytes(fields);
    assert(bytes.subrange(2, 6) =~= spec_u32_to_le_bytes(fields.lots));
    assert(bytes.subrange(6, 14) =~= spec_u64_to_le_bytes(fields.limit_price));
    assert(bytes.subrange(14, 46) =~= fields.epoch_id@);
    assert(bytes.subrange(46, 78) =~= fields.participant_id@);
    assert(bytes.subrange(78, 94) =~= fields.client_nonce@);
    assert(bytes.subrange(94, 128) =~= zeros(34));
}

/// The wire form of a valid order decodes, and no other order has that wire form.
pub proof fn law_intent_round_trip(fields: IntentFields, other: IntentFields)
    requires
        intent_valid(fields),
    ensures
        intent_error(intent_bytes(fields)) is None,
        intent_bytes(fields) == intent_bytes(other) ==> fields == other,
{
    lemma_intent_layout(fields);
    lemma_intent_layout(other);
    lemma_auto_spec_u32_to_from_le_bytes();
    lemma_auto_spec_u64_to_from_le_bytes();
    if intent_bytes(fields) == intent_bytes(other) {
        assert(spec_u32_from_le_bytes(spec_u32_to_le_bytes(fields.lots)) == fields.lots);
        assert(spec_u32_from_le_bytes(spec_u32_to_le_bytes(other.lots)) == other.lots);
        assert(spec_u64_from_le_bytes(spec_u64_to_le_bytes(fields.limit_price))
            == fields.limit_price);
        assert(spec_u64_from_le_bytes(spec_u64_to_le_bytes(other.limit_price))
            == other.limit_price);
        assert(fields.epoch_id =~= other.epoch_id);
        assert(fields.participant_id =~= other.participant_id);
        assert(fields.client_nonce =~= other.client_nonce);
    }
}

/// The fixed-width order body encrypted by a KageB client.
#[derive(Clone, Copy, Debug, PartialEq, Eq)]
pub struct IntentBodyV1 {
    side: Side,
    lots: u32,
    limit_price: u64,
    epoch_id: [u8; 32],
    participant_id: [u8; 32],
    client_nonce: [u8; 16],
}

impl View for IntentBodyV1 {
    type V = IntentFields;

    closed spec fn view(&self) -> IntentFields {
        IntentFields {
            side: self.side,
            lots: self.lots,
            limit_price: self.limit_price,
            epoch_id: self.epoch_id,
            participant_id: self.participant_id,
            client_nonce: self.client_nonce,
        }
    }
}

impl IntentBodyV1 {
    /// Every order body that exists is valid.
    pub open spec fn wf(&self) -> bool {
        intent_valid(self@)
    }

    /// Two order bodies that say the same are the same.
    pub proof fn lemma_view_determines(a: Self, b: Self)
        requires
            a@ == b@,
        ensures
            a == b,
    {
    }

    /// Makes an order body. Anything but one lot is refused first, then a zero limit.
    pub fn new(
        side: Side,
        lots: u32,
        limit_price: u64,
        epoch_id: [u8; 32],
        participant_id: [u8; 32],
        client_nonce: [u8; 16],
    ) -> (intent: Result<Self, ProtocolError>)
        ensures
            match intent {
                Ok(body) => {
                    &&& body.wf()
                    &&& body@ == (IntentFields {
                        side,
                        lots,
                        limit_price,
                        epoch_id,
                        participant_id,
                        client_nonce,
                    })
                },
                Err(error) => if lots != 1 {
                    error == ProtocolError::InvalidLots(lots)
                } else {
                    limit_price == 0 && error == ProtocolError::InvalidLimitPrice
                },
            },
    {
        if lots != 1 {
            return Err(ProtocolError::InvalidLots(lots));
        }
        if limit_price == 0 {
            return Err(ProtocolError::InvalidLimitPrice);
        }
        Ok(IntentBodyV1 { side, lots, limit_price, epoch_id, participant_id, client_nonce })
    }

    pub fn side(&self) -> (side: Side)
        ensures
            side == self@.side,
    {
        self.side
    }

    pub fn limit_price(&self) -> (limit_price: u64)
        ensures
            limit_price == self@.limit_price,
    {
        self.limit_price
    }

    pub fn participant_id(&self) -> (participant_id: [u8; 32])
        ensures
            participant_id == self@.participant_id,
    {
        self.participant_id
    }

    pub fn epoch_id(&self) -> (epoch_id: [u8; 32])
        ensures
            epoch_id == self@.epoch_id,
    {
        self.epoch_id
    }

    /// The wire form of the order.
    pub fn encode(&self) -> (bytes: [u8; 128])
        ensures
            bytes@ == intent_bytes(self@),
    {
        proof {
            lemma_intent_layout(self@);
        }
        let mut out: Vec<u8> = Vec::new();
        out.push(INTENT_VERSION);
        out.push(self.side.to_code());
        assert(out@ =~= seq![INTENT_VERSION, self.side.code()]);
        append(&mut out, u32_to_le_bytes(self.lots).as_slice());
        append(&mut out, u64_to_le_bytes(self.limit_price).as_slice());
        append(&mut out, self.epoch_id.as_slice());
        append(&mut out, self.participant_id.as_slice());
        append(&mut out, self.client_nonce.as_slice());
        let padding: [u8; 34] = [0u8; 34];
        assert(padding@ =~= zeros(34));
        append(&mut out, padding.as_slice());
        assert(out@ =~= intent_bytes(self@));
        let bytes: [u8; 128] = read_array::<128>(out.as_slice(), 0);
        assert(bytes@ =~= intent_bytes(self@));
        bytes
    }

    /// Reads a wire form back. What is refused is refused for the first reason that applies, in the
    /// order length, version, padding, side, lots, limit.
    pub fn decode(bytes: &[u8]) -> (intent: Result<Self, ProtocolError>)
        ensures
            match intent {
                Ok(body) => intent_error(bytes@) is None && body.wf() && bytes@ == intent_bytes(
                    body@,
                ),
                Err(error) => intent_error(bytes@) == Some(error),
            },
    {
        if bytes.len() != INTENT_LEN {
            return Err(ProtocolError::InvalidIntentLength(bytes.len()));
        }
        if bytes[0] != INTENT_VERSION {
            return Err(ProtocolError::InvalidVersion(bytes[0]));
        }
        if !is_zero(slice_subrange(bytes, PADDING_START, INTENT_LEN)) {
            return Err(ProtocolError::NonZeroPadding);
        }
        let side = match Side::from_code(bytes[1]) {
            Ok(side) => side,
            Err(error) => {
                return Err(error);
            },
        };
        let lots: u32 = u32_from_le_bytes(slice_subrange(bytes, 2, 6));
        let limit_price: u64 = u64_from_le_bytes(slice_subrange(bytes, 6, 14));
        let epoch_id: [u8; 32] = read_array::<32>(bytes, 14);
        let participant_id: [u8; 32] = read_array::<32>(bytes, 46);
        let client_nonce: [u8; 16] = read_array::<16>(bytes, 78);
        let intent = Self::new(side, lots, limit_price, epoch_id, participant_id, client_nonce);
        proof {
            lemma_auto_spec_u32_to_from_le_bytes();
            lemma_auto_spec_u64_to_from_le_bytes();
            if let Ok(body) = intent {
                lemma_intent_layout(body@);
                assert(spec_u32_to_le_bytes(lots) == bytes@.subrange(2, 6));
                assert(spec_u64_to_le_bytes(limit_price) == bytes@.subrange(6, 14));
                assert(bytes@ =~= intent_bytes(body@));
            }
        }
        intent
    }
}

/// A wrong order is told with the value that was found.
pub proof fn law_wrong_orders_are_told(length: usize, version: u8, side: u8, lots: u32)
    ensures
        ProtocolError::InvalidIntentLength(length).text() == "intent must be 128 bytes, got "@
            + decimal(length as nat),
        ProtocolError::InvalidVersion(version).text() == "unsupported intent version "@ + decimal(
            version as nat,
        ),
        ProtocolError::InvalidSide(side).text() == "invalid intent side "@ + decimal(side as nat),
        ProtocolError::InvalidLots(lots).text() == "v1 intent must contain one lot, got "@
            + decimal(lots as nat),
        ProtocolError::InvalidLimitPrice.text() == "limit price must be non-zero"@,
        ProtocolError::NonZeroPadding.text() == "intent padding must be zero"@,
{
}

/// A side is read from its number, zero for a buy and one for a sell, and written as it.
pub proof fn law_sides_have_their_numbers(side: Side, other: Side)
    ensures
        side == Side::Buy <==> side.code() == 0,
        side == Side::Sell <==> side.code() == 1,
        side.code() == other.code() ==> side == other,
{
}

} // verus!

//! The sale-abort and sale-init payloads: header decoders and field accessors.
//!
//! A sale-init payload is packed big-endian with no padding:
//!
//! | field                     | offset            | width |
//! |---------------------------|-------------------|-------|
//! | payload id                | 0                 | 1     |
//! | sale id                   | 1                 | 32    |
//! | token address             | 33                | 32    |
//! | token chain               | 65                | 2     |
//! | token amount              | 67                | 32    |
//! | min raise                 | 99                | 32    |
//! | max raise                 | 131               | 32    |
//! | sale start                | 163               | 32    |
//! | sale end                  | 195               | 32    |
//! | token count `T`           | 227               | 1     |
//! | accepted token `i`        | 228 + 50 i        | 50    |
//! | sale recipient            | 228 + 50 T        | 32    |
//! | refund recipient          | 260 + 50 T        | 32    |
//!
//! An accepted-token record is a 32-byte address, a 2-byte chain id and a
//! 16-byte conversion rate.
use vstd::prelude::*;
use crate::bytes::{
    field, read_u128_at, read_u16_at, read_u256_at, u128_at, u16_at, u256_at, DecodeError,
};

verus! {

/// Discriminant of the sale-init payload.
pub const PAYLOAD_ID_SALE_INIT: u8 = 1;

/// Discriminant of the sale-abort payload.
pub const PAYLOAD_ID_SALE_ABORT: u8 = 4;

/// Offset of the 256-bit sale id, in both payloads.
pub const SALE_ID_OFFSET: usize = 1;

pub const TOKEN_ADDRESS_OFFSET: usize = 33;

pub const TOKEN_CHAIN_OFFSET: usize = 65;

pub const TOKEN_AMOUNT_OFFSET: usize = 67;

pub const MIN_RAISE_OFFSET: usize = 99;

pub const MAX_RAISE_OFFSET: usize = 131;

pub const SALE_START_OFFSET: usize = 163;

pub const SALE_END_OFFSET: usize = 195;

/// The encoder writes the length prefix of the accepted-token list at this
/// fixed position, right after the fixed fields and whatever the list holds;
/// the prefix is not itself part of the variable region.
pub const TOKEN_COUNT_OFFSET: usize = 227;

/// Where the accepted-token records begin.
pub const ACCEPTED_TOKENS_OFFSET: usize = 228;

/// Size of one accepted-token record.
pub const TOKEN_RECORD_SIZE: usize = 50;

/// Offset of the conversion rate within an accepted-token record.
pub const RECORD_RATE_OFFSET: usize = 34;

/// Offset of the chain id within an accepted-token record.
pub const RECORD_CHAIN_OFFSET: usize = 32;

/// Width of an address.
pub const ADDRESS_LEN: usize = 32;

/// The shortest buffer a sale-init header decodes from.
pub const SALE_INIT_MIN_LEN: usize = 228;

/// A 32-byte account address, as raw bytes.
#[derive(Clone, Copy, Debug, PartialEq, Eq)]
pub struct Address {
    pub bytes: [u8; 32],
}

/// Header of a sale-abort payload.
#[derive(Clone, Copy, Debug, PartialEq, Eq, Structural)]
pub struct SaleAbort {
    pub payload_id: u8,
    /// Low 128 bits of the 256-bit sale id.
    pub sale_id: u128,
}

/// Header of a sale-init payload; the other fields are read on demand from
/// the same buffer with the accessors.
#[derive(Clone, Copy, Debug, PartialEq, Eq, Structural)]
pub struct SaleInit {
    pub payload_id: u8,
    /// Number of accepted-token records.
    pub token_cnt: u8,
    /// Low 128 bits of the 256-bit sale id.
    pub sale_id: u128,
}

/// The fields of a sale-init payload whose position is a function of the
/// token count alone.
#[derive(Clone, Copy, Debug, PartialEq, Eq, Structural)]
pub enum SaleInitField {
    PayloadId,
    SaleId,
    TokenAddress,
    TokenChain,
    TokenAmount,
    MinRaise,
    MaxRaise,
    SaleStart,
    SaleEnd,
    TokenCount,
    SaleRecipient,
    RefundRecipient,
}

/// Where `f` starts in a sale-init payload with `t` accepted tokens.
pub open spec fn field_offset_spec(f: SaleInitField, t: nat) -> int {
    match f {
        SaleInitField::PayloadId => 0,
        SaleInitField::SaleId => 1,
        SaleInitField::TokenAddress => 33,
        SaleInitField::TokenChain => 65,
        SaleInitField::TokenAmount => 67,
        SaleInitField::MinRaise => 99,
        SaleInitField::MaxRaise => 131,
        SaleInitField::SaleStart => 163,
        SaleInitField::SaleEnd => 195,
        SaleInitField::TokenCount => 227,
        SaleInitField::SaleRecipient => 228 + 50 * (t as int),
        SaleInitField::RefundRecipient => 260 + 50 * (t as int),
    }
}

/// Where accepted-token record `i` starts.
pub open spec fn record_offset_spec(i: nat) -> int {
    228 + 50 * (i as int)
}

/// The `width` bytes at `off`, or `OutOfBounds` where the buffer ends first.
pub open spec fn bytes_at(s: Seq<u8>, off: int, width: int) -> Result<Seq<u8>, DecodeError> {
    if off + width <= s.len() {
        Ok(field(s, off, width))
    } else {
        Err(DecodeError::OutOfBounds)
    }
}

/// The bytes of a read address.
pub open spec fn address_view(r: Result<Address, DecodeError>) -> Result<Seq<u8>, DecodeError> {
    match r {
        Ok(a) => Ok(a.bytes@),
        Err(e) => Err(e),
    }
}

/// The low half of a 256-bit read.
pub open spec fn low_half(r: Result<(u128, u128), DecodeError>) -> Result<u128, DecodeError> {
    match r {
        Ok(p) => Ok(p.1),
        Err(e) => Err(e),
    }
}

/// The sale-abort header held by `s`.
pub open spec fn sale_abort_spec(s: Seq<u8>) -> Result<SaleAbort, DecodeError> {
    match low_half(u256_at(s, 1)) {
        Ok(id) => Ok(SaleAbort { payload_id: s[0], sale_id: id }),
        Err(e) => Err(e),
    }
}

/// The sale-init header held by `s`.
pub open spec fn sale_init_spec(s: Seq<u8>) -> Result<SaleInit, DecodeError> {
    if s.len() < 228 {
        Err(DecodeError::OutOfBounds)
    } else {
        match low_half(u256_at(s, 1)) {
            Ok(id) => Ok(SaleInit { payload_id: s[0], token_cnt: s[227], sale_id: id }),
            Err(e) => Err(e),
        }
    }
}

/// The address of accepted token `i` of header `h` in `s`: there is none
/// unless `i` is below the token count.
pub open spec fn accepted_token_address_spec(h: SaleInit, i: int, s: Seq<u8>) -> Result<
    Seq<u8>,
    DecodeError,
> {
    if 0 <= i < h.token_cnt {
        bytes_at(s, record_offset_spec(i as nat), 32)
    } else {
        Err(DecodeError::OutOfBounds)
    }
}

/// The chain id of accepted token `i` of header `h` in `s`.
pub open spec fn accepted_token_chain_spec(h: SaleInit, i: int, s: Seq<u8>) -> Result<
    u16,
    DecodeError,
> {
    if 0 <= i < h.token_cnt {
        u16_at(s, record_offset_spec(i as nat) + 32)
    } else {
        Err(DecodeError::OutOfBounds)
    }
}

/// The conversion rate of accepted token `i` of header `h` in `s`.
pub open spec fn accepted_token_rate_spec(h: SaleInit, i: int, s: Seq<u8>) -> Result<
    u128,
    DecodeError,
> {
    if 0 <= i < h.token_cnt {
        u128_at(s, record_offset_spec(i as nat) + 34)
    } else {
        Err(DecodeError::OutOfBounds)
    }
}

/// Where `f` starts in a sale-init payload with `token_count` accepted tokens.
pub fn field_offset(f: SaleInitField, token_count: u8) -> (r: usize)
    ensures
        r == field_offset_spec(f, token_count as nat),
{
    let shift = token_count as usize * TOKEN_RECORD_SIZE;
    match f {
        SaleInitField::PayloadId => 0,
        SaleInitField::SaleId => SALE_ID_OFFSET,
        SaleInitField::TokenAddress => TOKEN_ADDRESS_OFFSET,
        SaleInitField::TokenChain => TOKEN_CHAIN_OFFSET,
        SaleInitField::TokenAmount => TOKEN_AMOUNT_OFFSET,
        SaleInitField::MinRaise => MIN_RAISE_OFFSET,
        SaleInitField::MaxRaise => MAX_RAISE_OFFSET,
        SaleInitField::SaleStart => SALE_START_OFFSET,
        SaleInitField::SaleEnd => SALE_END_OFFSET,
        SaleInitField::TokenCount => TOKEN_COUNT_OFFSET,
        SaleInitField::SaleRecipient => ACCEPTED_TOKENS_OFFSET + shift,
        SaleInitField::RefundRecipient => ACCEPTED_TOKENS_OFFSET + shift + ADDRESS_LEN,
    }
}

/// Where accepted-token record `idx` starts, for an index below a token count.
pub fn record_offset(idx: u8) -> (r: usize)
    ensures
        r == record_offset_spec(idx as nat),
{
    ACCEPTED_TOKENS_OFFSET + idx as usize * TOKEN_RECORD_SIZE
}

/// The 32 bytes at `off` as an address.
fn read_address_at(buf: &[u8], off: usize) -> (r: Result<Address, DecodeError>)
    ensures
        address_view(r) == bytes_at(buf@, off as int, 32),
{
    let n = buf.len();
    if off > n || n - off < ADDRESS_LEN {
        return Err(DecodeError::OutOfBounds);
    }
    let mut bytes: [u8; 32] = [0u8; 32];
    let mut i: usize = 0;
    while i < ADDRESS_LEN
        invariant
            i <= 32,
            off + 32 <= n,
            n == buf@.len(),
            forall|j: int| 0 <= j < i ==> bytes@[j] == buf@[off + j],
        decreases 32 - i,
    {
        bytes[i] = buf[off + i];
        i = i + 1;
    }
    assert(bytes@ =~= field(buf@, off as int, 32));
    Ok(Address { bytes })
}

impl SaleAbort {
    /// Decodes the header: the discriminant byte and the low half of the sale
    /// id. The discriminant is returned as found, not checked.
    pub fn deserialize(buf: &[u8]) -> (r: Result<SaleAbort, DecodeError>)
        ensures
            r == sale_abort_spec(buf@),
    {
        match read_u256_at(buf, SALE_ID_OFFSET) {
            Ok(id) => Ok(SaleAbort { payload_id: buf[0], sale_id: id.1 }),
            Err(e) => Err(e),
        }
    }
}

impl SaleInit {
    /// Decodes the header: the discriminant byte, the token count at its fixed
    /// offset and the low half of the sale id. The discriminant is returned as
    /// found, not checked.
    pub fn deserialize(buf: &[u8]) -> (r: Result<SaleInit, DecodeError>)
        ensures
            r == sale_init_spec(buf@),
    {
        if buf.len() < SALE_INIT_MIN_LEN {
            return Err(DecodeError::OutOfBounds);
        }
        match read_u256_at(buf, SALE_ID_OFFSET) {
            Ok(id) => Ok(
                SaleInit { payload_id: buf[0], token_cnt: buf[TOKEN_COUNT_OFFSET], sale_id: id.1 },
            ),
            Err(e) => Err(e),
        }
    }

    /// The low half of the sale id of a sale-init payload.
    pub fn get_init_sale_sale_id(bf: &[u8]) -> (r: Result<u128, DecodeError>)
        ensures
            r == low_half(u256_at(bf@, 1)),
    {
        match read_u256_at(bf, SALE_ID_OFFSET) {
            Ok(id) => Ok(id.1),
            Err(e) => Err(e),
        }
    }

    /// The address of the token on sale.
    pub fn get_token_address(&self, bf: &[u8]) -> (r: Result<Address, DecodeError>)
        ensures
            address_view(r) == bytes_at(bf@, 33, 32),
    {
        read_address_at(bf, TOKEN_ADDRESS_OFFSET)
    }

    /// The chain id of the token on sale.
    pub fn get_token_chain(&self, bf: &[u8]) -> (r: Result<u16, DecodeError>)
        ensures
            r == u16_at(bf@, 65),
    {
        read_u16_at(bf, TOKEN_CHAIN_OFFSET)
    }

    /// The amount of the token on sale, as `(high, low)` halves.
    pub fn get_token_amount(&self, bf: &[u8]) -> (r: Result<(u128, u128), DecodeError>)
        ensures
            r == u256_at(bf@, 67),
    {
        read_u256_at(bf, TOKEN_AMOUNT_OFFSET)
    }

    /// The minimum raise, as `(high, low)` halves.
    pub fn get_min_raise(&self, bf: &[u8]) -> (r: Result<(u128, u128), DecodeError>)
        ensures
            r == u256_at(bf@, 99),
    {
        read_u256_at(bf, MIN_RAISE_OFFSET)
    }

    /// The maximum raise, as `(high, low)` halves.
    pub fn get_max_raise(&self, bf: &[u8]) -> (r: Result<(u128, u128), DecodeError>)
        ensures
            r == u256_at(bf@, 131),
    {
        read_u256_at(bf, MAX_RAISE_OFFSET)
    }

    /// The sale start time, as `(high, low)` halves.
    pub fn get_sale_start(&self, bf: &[u8]) -> (r: Result<(u128, u128), DecodeError>)
        ensures
            r == u256_at(bf@, 163),
    {
        read_u256_at(bf, SALE_START_OFFSET)
    }

    /// The sale end time, as `(high, low)` halves.
    pub fn get_sale_end(&self, bf: &[u8]) -> (r: Result<(u128, u128), DecodeError>)
        ensures
            r == u256_at(bf@, 195),
    {
        read_u256_at(bf, SALE_END_OFFSET)
    }

    /// The sale recipient, just past the accepted-token records.
    pub fn get_sale_recepient(&self, bf: &[u8]) -> (r: Result<Address, DecodeError>)
        ensures
            address_view(r) == bytes_at(
                bf@,
                field_offset_spec(SaleInitField::SaleRecipient, self.token_cnt as nat),
                32,
            ),
    {
        read_address_at(bf, field_offset(SaleInitField::SaleRecipient, self.token_cnt))
    }

    /// The refund recipient, just past the sale recipient.
    pub fn get_refund_recepient(&self, bf: &[u8]) -> (r: Result<Address, DecodeError>)
        ensures
            address_view(r) == bytes_at(
                bf@,
                field_offset_spec(SaleInitField::RefundRecipient, self.token_cnt as nat),
                32,
            ),
    {
        read_address_at(bf, field_offset(SaleInitField::RefundRecipient, self.token_cnt))
    }

    /// The address of accepted token `idx`; `OutOfBounds` where there is no
    /// such record.
    pub fn get_accepted_token_address(&self, idx: usize, bf: &[u8]) -> (r: Result<
        Address,
        DecodeError,
    >)
        ensures
            address_view(r) == accepted_token_address_spec(*self, idx as int, bf@),
    {
        if idx >= self.token_cnt as usize {
            return Err(DecodeError::OutOfBounds);
        }
        read_address_at(bf, record_offset(idx as u8))
    }

    /// The chain id of accepted token `idx`; `OutOfBounds` where there is no
    /// such record.
    pub fn get_accepted_token_chain(&self, idx: usize, bf: &[u8]) -> (r: Result<u16, DecodeError>)
        ensures
            r == accepted_token_chain_spec(*self, idx as int, bf@),
    {
        if idx >= self.token_cnt as usize {
            return Err(DecodeError::OutOfBounds);
        }
        read_u16_at(bf, record_offset(idx as u8) + RECORD_CHAIN_OFFSET)
    }

    /// The conversion rate of accepted token `idx`; `OutOfBounds` where there
    /// is no such record.
    pub fn get_accepted_token_conversion_rate(&self, idx: usize, bf: &[u8]) -> (r: Result<
        u128,
        DecodeError,
    >)
        ensures
            r == accepted_token_rate_spec(*self, idx as int, bf@),
    {
        if idx >= self.token_cnt as usize {
            return Err(DecodeError::OutOfBounds);
        }
        read_u128_at(bf, record_offset(idx as u8) + RECORD_RATE_OFFSET)
    }
}

} // verus!

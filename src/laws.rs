//! Properties that relate the decoders, the accessors and the wire layout.
use vstd::prelude::*;
use crate::bytes::{be_value, field, pow256, u128_at, u16_at, u256_at, DecodeError};
use crate::messages::{
    accepted_token_address_spec, accepted_token_chain_spec, accepted_token_rate_spec, bytes_at,
    field_offset_spec, low_half, sale_abort_spec, sale_init_spec, SaleAbort, SaleInit,
    SaleInitField,
};

verus! {

/// A buffer of at least 33 bytes that starts with the sale-abort discriminant
/// decodes, and its sale id is the low half of the 256-bit integer in bytes
/// 1 to 33.
pub proof fn lemma_sale_abort_decodes(b: Seq<u8>)
    requires
        b.len() >= 33,
        b[0] == 4,
    ensures
        u256_at(b.subrange(1, 33), 0) is Ok,
        sale_abort_spec(b) == Ok::<SaleAbort, DecodeError>(
            SaleAbort { payload_id: 4, sale_id: u256_at(b.subrange(1, 33), 0)->Ok_0.1 },
        ),
{
    let w = b.subrange(1, 33);
    assert(field(w, 0, 16) =~= field(b, 1, 16));
    assert(field(w, 16, 16) =~= field(b, 17, 16));
}

/// A buffer shorter than a header's minimum length fails to decode with
/// `OutOfBounds`.
pub proof fn lemma_short_buffers_fail(b: Seq<u8>)
    ensures
        b.len() < 33 ==> sale_abort_spec(b) == Err::<SaleAbort, DecodeError>(
            DecodeError::OutOfBounds,
        ),
        b.len() < 228 ==> sale_init_spec(b) == Err::<SaleInit, DecodeError>(
            DecodeError::OutOfBounds,
        ),
{
}

/// With no accepted tokens the recipients sit at 228 and 260, and there is no
/// first accepted-token record to read, whatever the buffer holds.
pub proof fn lemma_no_tokens(h: SaleInit, b: Seq<u8>)
    requires
        h.token_cnt == 0,
    ensures
        field_offset_spec(SaleInitField::SaleRecipient, h.token_cnt as nat) == 228,
        field_offset_spec(SaleInitField::RefundRecipient, h.token_cnt as nat) == 260,
        accepted_token_address_spec(h, 0, b) == Err::<Seq<u8>, DecodeError>(
            DecodeError::OutOfBounds,
        ),
        accepted_token_chain_spec(h, 0, b) == Err::<u16, DecodeError>(DecodeError::OutOfBounds),
        accepted_token_rate_spec(h, 0, b) == Err::<u128, DecodeError>(DecodeError::OutOfBounds),
{
}

/// `v` written big-endian in `w` bytes (its value modulo `256^w`).
pub open spec fn be_bytes(v: nat, w: nat) -> Seq<u8>
    decreases w,
{
    if w == 0 {
        Seq::empty()
    } else {
        be_bytes(v / 256, (w - 1) as nat).push((v % 256) as u8)
    }
}

/// A 256-bit integer, given as `(high, low)` halves, written big-endian.
pub open spec fn u256_bytes(x: (u128, u128)) -> Seq<u8> {
    be_bytes(x.0 as nat, 16) + be_bytes(x.1 as nat, 16)
}

/// An accepted-token record, `(address, chain, rate)`, as it stands on the wire.
pub open spec fn record_bytes(t: (Seq<u8>, u16, u128)) -> Seq<u8> {
    t.0 + be_bytes(t.1 as nat, 2) + be_bytes(t.2 as nat, 16)
}

/// The accepted-token records, one after the other.
pub open spec fn records_bytes(ts: Seq<(Seq<u8>, u16, u128)>) -> Seq<u8>
    decreases ts.len(),
{
    if ts.len() == 0 {
        Seq::empty()
    } else {
        records_bytes(ts.drop_last()) + record_bytes(ts.last())
    }
}

/// The fixed fields of a sale-init payload, from the discriminant to the sale end.
pub open spec fn sale_init_fixed_bytes(
    sale_id: (u128, u128),
    token_address: Seq<u8>,
    token_chain: u16,
    token_amount: (u128, u128),
    min_raise: (u128, u128),
    max_raise: (u128, u128),
    sale_start: (u128, u128),
    sale_end: (u128, u128),
) -> Seq<u8> {
    seq![1u8] + u256_bytes(sale_id) + token_address + be_bytes(token_chain as nat, 2)
        + u256_bytes(token_amount) + u256_bytes(min_raise) + u256_bytes(max_raise)
        + u256_bytes(sale_start) + u256_bytes(sale_end)
}

/// A whole sale-init payload, laid out field by field.
pub open spec fn sale_init_bytes(
    sale_id: (u128, u128),
    token_address: Seq<u8>,
    token_chain: u16,
    token_amount: (u128, u128),
    min_raise: (u128, u128),
    max_raise: (u128, u128),
    sale_start: (u128, u128),
    sale_end: (u128, u128),
    tokens: Seq<(Seq<u8>, u16, u128)>,
    recipient: Seq<u8>,
    refund_recipient: Seq<u8>,
) -> Seq<u8> {
    sale_init_fixed_bytes(
        sale_id,
        token_address,
        token_chain,
        token_amount,
        min_raise,
        max_raise,
        sale_start,
        sale_end,
    ) + seq![tokens.len() as u8] + records_bytes(tokens) + recipient + refund_recipient
}

pub proof fn lemma_be_bytes(v: nat, w: nat)
    requires
        v < pow256(w),
    ensures
        be_bytes(v, w).len() == w,
        be_value(be_bytes(v, w)) == v,
    decreases w,
{
    if w > 0 {
        let p = pow256((w - 1) as nat);
        assert(v / 256 < p) by (nonlinear_arith)
            requires
                v < 256 * p,
        ;
        lemma_be_bytes(v / 256, (w - 1) as nat);
        let s = be_bytes(v, w);
        assert(s.drop_last() =~= be_bytes(v / 256, (w - 1) as nat));
        assert((v / 256) * 256 + v % 256 == v) by (nonlinear_arith);
    }
}

proof fn lemma_be_bytes_16(v: u128)
    ensures
        be_bytes(v as nat, 16).len() == 16,
        be_value(be_bytes(v as nat, 16)) as u128 == v,
{
    crate::bytes::lemma_pow256_16();
    lemma_be_bytes(v as nat, 16);
}

proof fn lemma_be_bytes_2(v: u16)
    ensures
        be_bytes(v as nat, 2).len() == 2,
        be_value(be_bytes(v as nat, 2)) as u16 == v,
{
    reveal_with_fuel(pow256, 3);
    lemma_be_bytes(v as nat, 2);
}

proof fn lemma_field_left(x: Seq<u8>, y: Seq<u8>, off: int, w: int)
    requires
        0 <= off,
        0 <= w,
        off + w <= x.len(),
    ensures
        field(x + y, off, w) == field(x, off, w),
{
    assert(field(x + y, off, w) =~= field(x, off, w));
}

proof fn lemma_field_right(x: Seq<u8>, y: Seq<u8>, off: int, w: int)
    requires
        x.len() <= off,
        0 <= w,
        off + w <= x.len() + y.len(),
    ensures
        field(x + y, off, w) == field(y, off - x.len(), w),
{
    assert(field(x + y, off, w) =~= field(y, off - x.len(), w));
}

proof fn lemma_records(ts: Seq<(Seq<u8>, u16, u128)>, i: int)
    requires
        forall|j: int| 0 <= j < ts.len() ==> (#[trigger] ts[j]).0.len() == 32,
        0 <= i < ts.len(),
    ensures
        records_bytes(ts).len() == 50 * ts.len(),
        field(records_bytes(ts), 50 * i, 50) == record_bytes(ts[i]),
    decreases ts.len(),
{
    let init = ts.drop_last();
    let last = ts.last();
    lemma_be_bytes_2(last.1);
    lemma_be_bytes_16(last.2);
    assert(record_bytes(last).len() == 50);
    if i < init.len() {
        lemma_records(init, i);
        lemma_field_left(records_bytes(init), record_bytes(last), 50 * i, 50);
    } else {
        if init.len() > 0 {
            lemma_records(init, 0);
        }
        lemma_field_right(records_bytes(init), record_bytes(last), 50 * i, 50);
        assert(field(record_bytes(last), 0, 50) =~= record_bytes(last));
    }
}

proof fn lemma_u256_field(b: Seq<u8>, off: int, x: (u128, u128))
    requires
        0 <= off,
        off + 32 <= b.len(),
        field(b, off, 16) == be_bytes(x.0 as nat, 16),
        field(b, off + 16, 16) == be_bytes(x.1 as nat, 16),
    ensures
        u256_at(b, off) == Ok::<(u128, u128), DecodeError>(x),
{
    lemma_be_bytes_16(x.0);
    lemma_be_bytes_16(x.1);
}

proof fn lemma_fixed_fields(
    sale_id: (u128, u128),
    token_address: Seq<u8>,
    token_chain: u16,
    token_amount: (u128, u128),
    min_raise: (u128, u128),
    max_raise: (u128, u128),
    sale_start: (u128, u128),
    sale_end: (u128, u128),
)
    requires
        token_address.len() == 32,
    ensures
        ({
            let f = sale_init_fixed_bytes(
                sale_id,
                token_address,
                token_chain,
                token_amount,
                min_raise,
                max_raise,
                sale_start,
                sale_end,
            );
            &&& f.len() == 227
            &&& f[0] == 1
            &&& u256_at(f, 1) == Ok::<(u128, u128), DecodeError>(sale_id)
            &&& field(f, 33, 32) == token_address
            &&& u16_at(f, 65) == Ok::<u16, DecodeError>(token_chain)
            &&& u256_at(f, 67) == Ok::<(u128, u128), DecodeError>(token_amount)
            &&& u256_at(f, 99) == Ok::<(u128, u128), DecodeError>(min_raise)
            &&& u256_at(f, 131) == Ok::<(u128, u128), DecodeError>(max_raise)
            &&& u256_at(f, 163) == Ok::<(u128, u128), DecodeError>(sale_start)
            &&& u256_at(f, 195) == Ok::<(u128, u128), DecodeError>(sale_end)
        }),
{
    let f = sale_init_fixed_bytes(
        sale_id,
        token_address,
        token_chain,
        token_amount,
        min_raise,
        max_raise,
        sale_start,
        sale_end,
    );
    lemma_be_bytes_16(sale_id.0);
    lemma_be_bytes_16(sale_id.1);
    lemma_be_bytes_16(token_amount.0);
    lemma_be_bytes_16(token_amount.1);
    lemma_be_bytes_16(min_raise.0);
    lemma_be_bytes_16(min_raise.1);
    lemma_be_bytes_16(max_raise.0);
    lemma_be_bytes_16(max_raise.1);
    lemma_be_bytes_16(sale_start.0);
    lemma_be_bytes_16(sale_start.1);
    lemma_be_bytes_16(sale_end.0);
    lemma_be_bytes_16(sale_end.1);
    lemma_be_bytes_2(token_chain);
    assert(f.len() == 227);
    assert(field(f, 1, 16) =~= be_bytes(sale_id.0 as nat, 16));
    assert(field(f, 17, 16) =~= be_bytes(sale_id.1 as nat, 16));
    lemma_u256_field(f, 1, sale_id);
    assert(field(f, 33, 32) =~= token_address);
    assert(field(f, 65, 2) =~= be_bytes(token_chain as nat, 2));
    assert(field(f, 67, 16) =~= be_bytes(token_amount.0 as nat, 16));
    assert(field(f, 83, 16) =~= be_bytes(token_amount.1 as nat, 16));
    lemma_u256_field(f, 67, token_amount);
    assert(field(f, 99, 16) =~= be_bytes(min_raise.0 as nat, 16));
    assert(field(f, 115, 16) =~= be_bytes(min_raise.1 as nat, 16));
    lemma_u256_field(f, 99, min_raise);
    assert(field(f, 131, 16) =~= be_bytes(max_raise.0 as nat, 16));
    assert(field(f, 147, 16) =~= be_bytes(max_raise.1 as nat, 16));
    lemma_u256_field(f, 131, max_raise);
    assert(field(f, 163, 16) =~= be_bytes(sale_start.0 as nat, 16));
    assert(field(f, 179, 16) =~= be_bytes(sale_start.1 as nat, 16));
    lemma_u256_field(f, 163, sale_start);
    assert(field(f, 195, 16) =~= be_bytes(sale_end.0 as nat, 16));
    assert(field(f, 211, 16) =~= be_bytes(sale_end.1 as nat, 16));
    lemma_u256_field(f, 195, sale_end);
}

/// A sale-init payload laid out by the wire table, with `T` accepted-token
/// records, decodes to a header with token count `T` and the low half of the
/// sale id, and every accessor gives back the field that was written: the
/// fixed fields, each accepted-token record `i < T`, and both recipients at
/// their offsets shifted by `T` records.
pub proof fn lemma_sale_init_round_trip(
    sale_id: (u128, u128),
    token_address: Seq<u8>,
    token_chain: u16,
    token_amount: (u128, u128),
    min_raise: (u128, u128),
    max_raise: (u128, u128),
    sale_start: (u128, u128),
    sale_end: (u128, u128),
    tokens: Seq<(Seq<u8>, u16, u128)>,
    recipient: Seq<u8>,
    refund_recipient: Seq<u8>,
)
    requires
        token_address.len() == 32,
        tokens.len() <= 255,
        forall|i: int| 0 <= i < tokens.len() ==> (#[trigger] tokens[i]).0.len() == 32,
        recipient.len() == 32,
        refund_recipient.len() == 32,
    ensures
        ({
            let b = sale_init_bytes(
                sale_id,
                token_address,
                token_chain,
                token_amount,
                min_raise,
                max_raise,
                sale_start,
                sale_end,
                tokens,
                recipient,
                refund_recipient,
            );
            let h = SaleInit { payload_id: 1, token_cnt: tokens.len() as u8, sale_id: sale_id.1 };
            &&& sale_init_spec(b) == Ok::<SaleInit, DecodeError>(h)
            &&& low_half(u256_at(b, 1)) == Ok::<u128, DecodeError>(sale_id.1)
            &&& bytes_at(b, 33, 32) == Ok::<Seq<u8>, DecodeError>(token_address)
            &&& u16_at(b, 65) == Ok::<u16, DecodeError>(token_chain)
            &&& u256_at(b, 67) == Ok::<(u128, u128), DecodeError>(token_amount)
            &&& u256_at(b, 99) == Ok::<(u128, u128), DecodeError>(min_raise)
            &&& u256_at(b, 131) == Ok::<(u128, u128), DecodeError>(max_raise)
            &&& u256_at(b, 163) == Ok::<(u128, u128), DecodeError>(sale_start)
            &&& u256_at(b, 195) == Ok::<(u128, u128), DecodeError>(sale_end)
            &&& bytes_at(b, field_offset_spec(SaleInitField::SaleRecipient, h.token_cnt as nat), 32)
                == Ok::<Seq<u8>, DecodeError>(recipient)
            &&& bytes_at(
                b,
                field_offset_spec(SaleInitField::RefundRecipient, h.token_cnt as nat),
                32,
            ) == Ok::<Seq<u8>, DecodeError>(refund_recipient)
            &&& forall|i: int|
                0 <= i < tokens.len() ==> {
                    &&& #[trigger] accepted_token_address_spec(h, i, b) == Ok::<
                        Seq<u8>,
                        DecodeError,
                    >(tokens[i].0)
                    &&& accepted_token_chain_spec(h, i, b) == Ok::<u16, DecodeError>(tokens[i].1)
                    &&& accepted_token_rate_spec(h, i, b) == Ok::<u128, DecodeError>(tokens[i].2)
                }
        }),
{
    let f = sale_init_fixed_bytes(
        sale_id,
        token_address,
        token_chain,
        token_amount,
        min_raise,
        max_raise,
        sale_start,
        sale_end,
    );
    let n: int = tokens.len() as int;
    let p = f + seq![n as u8];
    let r = records_bytes(tokens);
    let b = sale_init_bytes(
        sale_id,
        token_address,
        token_chain,
        token_amount,
        min_raise,
        max_raise,
        sale_start,
        sale_end,
        tokens,
        recipient,
        refund_recipient,
    );
    let h = SaleInit { payload_id: 1, token_cnt: n as u8, sale_id: sale_id.1 };
    lemma_fixed_fields(
        sale_id,
        token_address,
        token_chain,
        token_amount,
        min_raise,
        max_raise,
        sale_start,
        sale_end,
    );
    if n > 0 {
        lemma_records(tokens, 0);
    }
    assert(r.len() == 50 * n);
    assert(b == p + r + recipient + refund_recipient);
    // The fixed fields sit in the prefix `f` of `b`.
    assert(b.subrange(0, 227) =~= f);
    assert forall|off: int, w: int| 0 <= off && 0 <= w && off + w <= 227 implies field(b, off, w)
        == field(f, off, w) by {
        assert(field(b, off, w) =~= field(f, off, w));
    }
    assert(b[0] == 1);
    assert(b[227] == n as u8);
    // The recipients follow the records.
    let ro: int = 228 + 50 * (n as int);
    assert(field(b, ro, 32) =~= recipient);
    assert(field(b, ro + 32, 32) =~= refund_recipient);
    // Each record sits at its place in `r`.
    assert forall|i: int| 0 <= i < n implies {
        &&& #[trigger] accepted_token_address_spec(h, i, b) == Ok::<Seq<u8>, DecodeError>(
            tokens[i].0,
        )
        &&& accepted_token_chain_spec(h, i, b) == Ok::<u16, DecodeError>(tokens[i].1)
        &&& accepted_token_rate_spec(h, i, b) == Ok::<u128, DecodeError>(tokens[i].2)
    } by {
        let t = tokens[i];
        lemma_records(tokens, i);
        lemma_be_bytes_2(t.1);
        lemma_be_bytes_16(t.2);
        let rec = record_bytes(t);
        let o = 228 + 50 * i;
        assert(0 <= 50 * i && 50 * i + 50 <= 50 * n) by (nonlinear_arith)
            requires
                0 <= i < n,
        ;
        assert(field(b, o, 32) =~= field(rec, 0, 32));
        assert(field(b, o + 32, 2) =~= field(rec, 32, 2));
        assert(field(b, o + 34, 16) =~= field(rec, 34, 16));
        assert(field(rec, 0, 32) =~= t.0);
        assert(field(rec, 32, 2) =~= be_bytes(t.1 as nat, 2));
        assert(field(rec, 34, 16) =~= be_bytes(t.2 as nat, 16));
    }
}

} // verus!

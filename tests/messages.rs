use icco_messages::bytes::{read_u128, read_u16, read_u256, DecodeError};
use icco_messages::messages::{
    field_offset, record_offset, Address, SaleAbort, SaleInit, SaleInitField,
};

fn be16(v: u16) -> Vec<u8> {
    v.to_be_bytes().to_vec()
}

fn be128(v: u128) -> Vec<u8> {
    v.to_be_bytes().to_vec()
}

fn be256(hi: u128, lo: u128) -> Vec<u8> {
    let mut out = be128(hi);
    out.extend(be128(lo));
    out
}

/// A sale-init payload with `n` accepted tokens; record `i` has address
/// `[0xa0 + i; 32]`, chain `100 + i` and rate `1000 + i`.
fn sale_init_payload(sale_id: (u128, u128), n: u8) -> Vec<u8> {
    let mut b = vec![1u8];
    b.extend(be256(sale_id.0, sale_id.1));
    b.extend(vec![0x11u8; 32]);
    b.extend(be16(1));
    b.extend(be256(0, 5000));
    b.extend(be256(0, 100));
    b.extend(be256(0, 9000));
    b.extend(be256(0, 1_650_000_000));
    b.extend(be256(0, 1_650_086_400));
    assert_eq!(b.len(), 227);
    b.push(n);
    for i in 0..n {
        b.extend(vec![0xa0u8 + i; 32]);
        b.extend(be16(100 + i as u16));
        b.extend(be128(1000 + i as u128));
    }
    b.extend(vec![0xeeu8; 32]);
    b.extend(vec![0xffu8; 32]);
    b
}

#[test]
fn read_u16_is_big_endian() {
    assert_eq!(read_u16(&[0x01, 0x00]), Ok(256));
    assert_eq!(read_u16(&[0x12, 0x34, 0x56]), Ok(0x1234));
}

#[test]
fn read_u128_is_big_endian() {
    let mut b = vec![0u8; 15];
    b.push(1);
    assert_eq!(read_u128(&b), Ok(1));
    let b: Vec<u8> = (1u8..=16).collect();
    assert_eq!(read_u128(&b), Ok(0x0102030405060708090a0b0c0d0e0f10));
    assert_eq!(read_u128(&[0xffu8; 16]), Ok(u128::MAX));
}

#[test]
fn read_u256_gives_high_half_first() {
    let b = be256(7, 9);
    assert_eq!(read_u256(&b), Ok((7, 9)));
}

#[test]
fn short_reads_fail() {
    assert_eq!(read_u16(&[0x01]), Err(DecodeError::OutOfBounds));
    assert_eq!(read_u16(&[]), Err(DecodeError::OutOfBounds));
    assert_eq!(read_u128(&[0u8; 15]), Err(DecodeError::OutOfBounds));
    assert_eq!(read_u256(&[0u8; 31]), Err(DecodeError::OutOfBounds));
}

#[test]
fn sale_abort_decodes_low_half() {
    let mut b = vec![4u8];
    b.extend(be256(0x55, 0x1234_5678));
    assert_eq!(
        SaleAbort::deserialize(&b),
        Ok(SaleAbort { payload_id: 4, sale_id: 0x1234_5678 })
    );
    b.push(0x99);
    assert_eq!(
        SaleAbort::deserialize(&b),
        Ok(SaleAbort { payload_id: 4, sale_id: 0x1234_5678 })
    );
}

#[test]
fn sale_abort_keeps_discriminant_as_found() {
    let mut b = vec![9u8];
    b.extend(be256(0, 3));
    assert_eq!(SaleAbort::deserialize(&b), Ok(SaleAbort { payload_id: 9, sale_id: 3 }));
}

#[test]
fn short_headers_fail() {
    let mut b = vec![4u8];
    b.extend(vec![0u8; 31]);
    assert_eq!(SaleAbort::deserialize(&b), Err(DecodeError::OutOfBounds));
    assert_eq!(SaleAbort::deserialize(&[]), Err(DecodeError::OutOfBounds));
    let full = sale_init_payload((0, 1), 0);
    assert_eq!(SaleInit::deserialize(&full[..227]), Err(DecodeError::OutOfBounds));
    assert_eq!(SaleInit::deserialize(&[]), Err(DecodeError::OutOfBounds));
    assert!(SaleInit::deserialize(&full[..228]).is_ok());
}

#[test]
fn sale_init_scenario_two_tokens() {
    let b = sale_init_payload((0, 0), 2);
    let h = SaleInit::deserialize(&b).unwrap();
    assert_eq!(h, SaleInit { payload_id: 1, token_cnt: 2, sale_id: 0 });
    assert_eq!(h.get_token_chain(&b), Ok(1));
    assert_eq!(h.get_token_address(&b), Ok(Address { bytes: [0x11; 32] }));
    assert_eq!(h.get_accepted_token_address(1, &b), Ok(Address { bytes: [0xa1; 32] }));
    assert_eq!(field_offset(SaleInitField::SaleRecipient, h.token_cnt), 328);
    assert_eq!(h.get_sale_recepient(&b), Ok(Address { bytes: [0xee; 32] }));
    assert_eq!(h.get_refund_recepient(&b), Ok(Address { bytes: [0xff; 32] }));
}

#[test]
fn sale_init_round_trip() {
    let b = sale_init_payload((0x77, 0x1234), 3);
    let h = SaleInit::deserialize(&b).unwrap();
    assert_eq!(h, SaleInit { payload_id: 1, token_cnt: 3, sale_id: 0x1234 });
    assert_eq!(SaleInit::get_init_sale_sale_id(&b), Ok(0x1234));
    assert_eq!(h.get_token_address(&b), Ok(Address { bytes: [0x11; 32] }));
    assert_eq!(h.get_token_chain(&b), Ok(1));
    assert_eq!(h.get_token_amount(&b), Ok((0, 5000)));
    assert_eq!(h.get_min_raise(&b), Ok((0, 100)));
    assert_eq!(h.get_max_raise(&b), Ok((0, 9000)));
    assert_eq!(h.get_sale_start(&b), Ok((0, 1_650_000_000)));
    assert_eq!(h.get_sale_end(&b), Ok((0, 1_650_086_400)));
    for i in 0..3usize {
        assert_eq!(
            h.get_accepted_token_address(i, &b),
            Ok(Address { bytes: [0xa0 + i as u8; 32] })
        );
        assert_eq!(h.get_accepted_token_chain(i, &b), Ok(100 + i as u16));
        assert_eq!(h.get_accepted_token_conversion_rate(i, &b), Ok(1000 + i as u128));
    }
    assert_eq!(h.get_sale_recepient(&b), Ok(Address { bytes: [0xee; 32] }));
    assert_eq!(h.get_refund_recepient(&b), Ok(Address { bytes: [0xff; 32] }));
    assert_eq!(
        h.get_accepted_token_address(3, &b),
        Err(DecodeError::OutOfBounds)
    );
}

#[test]
fn no_tokens_boundary() {
    let b = sale_init_payload((0, 8), 0);
    assert_eq!(b.len(), 292);
    let h = SaleInit::deserialize(&b).unwrap();
    assert_eq!(h.token_cnt, 0);
    assert_eq!(field_offset(SaleInitField::SaleRecipient, 0), 228);
    assert_eq!(field_offset(SaleInitField::RefundRecipient, 0), 260);
    assert_eq!(h.get_sale_recepient(&b), Ok(Address { bytes: [0xee; 32] }));
    assert_eq!(h.get_refund_recepient(&b), Ok(Address { bytes: [0xff; 32] }));
    assert_eq!(h.get_accepted_token_address(0, &b), Err(DecodeError::OutOfBounds));
    assert_eq!(h.get_accepted_token_chain(0, &b), Err(DecodeError::OutOfBounds));
    assert_eq!(
        h.get_accepted_token_conversion_rate(0, &b),
        Err(DecodeError::OutOfBounds)
    );
}

#[test]
fn huge_index_fails() {
    let b = sale_init_payload((0, 8), 2);
    let h = SaleInit::deserialize(&b).unwrap();
    assert_eq!(h.get_accepted_token_address(usize::MAX, &b), Err(DecodeError::OutOfBounds));
    assert_eq!(h.get_accepted_token_chain(usize::MAX, &b), Err(DecodeError::OutOfBounds));
    assert_eq!(
        h.get_accepted_token_conversion_rate(usize::MAX, &b),
        Err(DecodeError::OutOfBounds)
    );
}

#[test]
fn truncated_payload_fails_past_the_end() {
    let b = sale_init_payload((0, 8), 2);
    let h = SaleInit::deserialize(&b).unwrap();
    let cut = &b[..b.len() - 1];
    assert_eq!(h.get_refund_recepient(cut), Err(DecodeError::OutOfBounds));
    assert_eq!(h.get_sale_recepient(cut), Ok(Address { bytes: [0xee; 32] }));
    let cut = &b[..228 + 50 + 33];
    assert_eq!(h.get_accepted_token_chain(1, cut), Err(DecodeError::OutOfBounds));
    assert_eq!(h.get_accepted_token_address(1, cut), Ok(Address { bytes: [0xa1; 32] }));
    let cut = &b[..66];
    assert_eq!(h.get_token_chain(cut), Err(DecodeError::OutOfBounds));
    assert_eq!(h.get_token_amount(&b[..98]), Err(DecodeError::OutOfBounds));
}

#[test]
fn field_offsets_follow_the_table() {
    assert_eq!(field_offset(SaleInitField::PayloadId, 7), 0);
    assert_eq!(field_offset(SaleInitField::SaleId, 7), 1);
    assert_eq!(field_offset(SaleInitField::TokenAddress, 7), 33);
    assert_eq!(field_offset(SaleInitField::TokenChain, 7), 65);
    assert_eq!(field_offset(SaleInitField::TokenAmount, 7), 67);
    assert_eq!(field_offset(SaleInitField::MinRaise, 7), 99);
    assert_eq!(field_offset(SaleInitField::MaxRaise, 7), 131);
    assert_eq!(field_offset(SaleInitField::SaleStart, 7), 163);
    assert_eq!(field_offset(SaleInitField::SaleEnd, 7), 195);
    assert_eq!(field_offset(SaleInitField::TokenCount, 7), 227);
    assert_eq!(field_offset(SaleInitField::SaleRecipient, 7), 578);
    assert_eq!(field_offset(SaleInitField::RefundRecipient, 7), 610);
    assert_eq!(field_offset(SaleInitField::RefundRecipient, 255), 13010);
    assert_eq!(record_offset(0), 228);
    assert_eq!(record_offset(2), 328);
}

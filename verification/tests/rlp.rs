use budlum_core::cross_domain::evm::rlp::{decode, encode, RlpError, RlpItem};

fn from_hex(s: &str) -> Vec<u8> {
    (0..s.len()).step_by(2).map(|i| u8::from_str_radix(&s[i..i + 2], 16).unwrap()).collect()
}

fn b(hex_str: &str) -> RlpItem {
    RlpItem::Bytes(from_hex(hex_str))
}

#[test]
fn kat_encode_empty_string() {
    assert_eq!(encode(&RlpItem::Bytes(vec![])), vec![0x80]);
}

#[test]
fn kat_encode_dog() {
    assert_eq!(encode(&b("646f67")), from_hex("83646f67"));
}

#[test]
fn kat_encode_empty_list() {
    assert_eq!(encode(&RlpItem::List(vec![])), vec![0xc0]);
}

#[test]
fn kat_encode_list_cat_dog() {
    let item = RlpItem::List(vec![b("636174"), b("646f67")]);
    assert_eq!(encode(&item), from_hex("c88363617483646f67"));
}

#[test]
fn kat_encode_single_byte_low() {
    assert_eq!(encode(&b("00")), vec![0x00]);
    assert_eq!(encode(&b("0f")), vec![0x0f]);
    assert_eq!(encode(&b("7f")), vec![0x7f]);
}

#[test]
fn kat_encode_single_byte_high() {
    assert_eq!(encode(&b("80")), vec![0x81, 0x80]);
}

#[test]
fn kat_encode_0x0400() {
    assert_eq!(encode(&b("0400")), vec![0x82, 0x04, 0x00]);
}

#[test]
fn kat_encode_long_string() {
    let s = b"Lorem ipsum dolor sit amet, consectetur adipisicing elit";
    let enc = encode(&RlpItem::Bytes(s.to_vec()));
    assert_eq!(enc[0], 0xb8);
    assert_eq!(enc[1], 56);
    assert_eq!(enc.len(), 2 + 56);
}

#[test]
fn kat_decode_roundtrip_empty_string() {
    assert_eq!(decode(&[0x80]).unwrap(), RlpItem::Bytes(vec![]));
}

#[test]
fn kat_decode_roundtrip_dog() {
    assert_eq!(decode(&from_hex("83646f67")).unwrap(), b("646f67"));
}

#[test]
fn kat_decode_roundtrip_empty_list() {
    assert_eq!(decode(&[0xc0]).unwrap(), RlpItem::List(vec![]));
}

#[test]
fn kat_decode_roundtrip_list_cat_dog() {
    let item = RlpItem::List(vec![b("636174"), b("646f67")]);
    assert_eq!(decode(&from_hex("c88363617483646f67")).unwrap(), item);
}

#[test]
fn kat_decode_roundtrip_single_bytes() {
    assert_eq!(decode(&[0x00]).unwrap(), b("00"));
    assert_eq!(decode(&[0x0f]).unwrap(), b("0f"));
    assert_eq!(decode(&[0x7f]).unwrap(), b("7f"));
    assert_eq!(decode(&[0x81, 0x80]).unwrap(), b("80"));
}

#[test]
fn kat_decode_roundtrip_long_string() {
    let s = b"Lorem ipsum dolor sit amet, consectetur adipisicing elit".to_vec();
    let item = RlpItem::Bytes(s);
    let enc = encode(&item);
    assert_eq!(decode(&enc).unwrap(), item);
}

#[test]
fn kat_deeply_nested_list() {
    let item = RlpItem::List(vec![
        RlpItem::List(vec![]),
        RlpItem::List(vec![RlpItem::List(vec![])]),
        RlpItem::List(vec![RlpItem::List(vec![])]),
    ]);
    let enc = encode(&item);
    assert_eq!(decode(&enc).unwrap(), item);
}

#[test]
fn canonical_rejects_non_canonical_single_byte() {
    assert_eq!(decode(&[0x81, 0x00]).unwrap_err(), RlpError::NonCanonical);
    assert_eq!(decode(&[0x81, 0x0f]).unwrap_err(), RlpError::NonCanonical);
}

#[test]
fn canonical_rejects_long_form_short_payload() {
    assert_eq!(decode(&[0xb8, 0x01, 0xaa]).unwrap_err(), RlpError::NonCanonical);
}

#[test]
fn canonical_rejects_leading_zero_length() {
    assert_eq!(decode(&[0xb9, 0x00, 0x00, 0x38]).unwrap_err(), RlpError::NonCanonical);
}

#[test]
fn decode_rejects_trailing_bytes() {
    assert_eq!(decode(&[0x80, 0x80]).unwrap_err(), RlpError::TrailingBytes);
}

#[test]
fn decode_rejects_unexpected_end_short_string() {
    assert_eq!(decode(&[0x83, 0xaa, 0xbb]).unwrap_err(), RlpError::UnexpectedEnd);
}

#[test]
fn decode_rejects_unexpected_end_long_string() {
    assert_eq!(decode(&[0xb8, 0x0a]).unwrap_err(), RlpError::UnexpectedEnd);
}

#[test]
fn decode_rejects_empty_input() {
    assert_eq!(decode(&[]).unwrap_err(), RlpError::UnexpectedEnd);
}

#[test]
fn fuzz_random_bytes_no_panic() {
    let mut seed: u64 = 0x1234_5678_9abc_def0;
    let mut next = || {
        seed = seed.wrapping_mul(6364136223846793005).wrapping_add(1442695040888963407);
        (seed >> 33) as u8
    };
    for _ in 0..5000 {
        let n = (next() as usize % 8) + 1;
        let buf: Vec<u8> = (0..n).map(|_| next()).collect();
        let _ = decode(&buf);
    }
}

#[test]
fn long_list_roundtrip() {
    let items: Vec<RlpItem> = (0..40u8).map(|i| RlpItem::Bytes(vec![i, i])).collect();
    let expected: Vec<RlpItem> = (0..40u8).map(|i| RlpItem::Bytes(vec![i, i])).collect();
    let enc = encode(&RlpItem::List(items));
    assert_eq!(enc[0], 0xf8);
    assert_eq!(enc[1], 120);
    assert_eq!(decode(&enc).unwrap(), RlpItem::List(expected));
}

#[test]
fn list_with_bad_element_is_rejected() {
    // a list whose payload holds a non-canonical string
    assert_eq!(decode(&[0xc2, 0x81, 0x05]).unwrap_err(), RlpError::NonCanonical);
    // a list whose payload ends inside an element
    assert_eq!(decode(&[0xc2, 0x83, 0x05]).unwrap_err(), RlpError::UnexpectedEnd);
}

#[test]
fn error_descriptions() {
    assert_eq!(RlpError::TrailingBytes.describe(), "rlp: trailing bytes after single item");
}

#[test]
fn leading_zero_length_is_refused_before_truncation() {
    // Two length bytes with a leading zero (length 56), only one data byte.
    assert_eq!(decode(&[0xb9, 0x00, 0x38, 0xaa]).unwrap_err(), RlpError::NonCanonical);
    assert_eq!(decode(&[0xf9, 0x00, 0x38, 0xc0]).unwrap_err(), RlpError::NonCanonical);
}

//! Hexadecimal text: decoding of either case, lowercase encoding.
use vstd::prelude::*;
use vstd::utf8::encode_utf8;

verus! {

/// The value of one hex digit, either case.
pub open spec fn hex_digit_value(c: u8) -> Option<u8> {
    if 0x30 <= c <= 0x39 {
        Some((c - 0x30) as u8)
    } else if 0x61 <= c <= 0x66 {
        Some((c - 0x61 + 10) as u8)
    } else if 0x41 <= c <= 0x46 {
        Some((c - 0x41 + 10) as u8)
    } else {
        None
    }
}

/// The bytes a hex string denotes: `None` on odd length or a non-digit.
pub open spec fn spec_hex_decode(s: Seq<u8>) -> Option<Seq<u8>> {
    if s.len() % 2 != 0 {
        None
    } else if exists|i: int| 0 <= i < s.len() && #[trigger] hex_digit_value(s[i]) is None {
        None
    } else {
        Some(
            Seq::new(
                s.len() / 2,
                |i: int|
                    (hex_digit_value(s[2 * i]).unwrap() * 16 + hex_digit_value(
                        s[2 * i + 1],
                    ).unwrap()) as u8,
            ),
        )
    }
}

/// The lowercase hex digit of a nibble.
pub open spec fn hex_char(n: int) -> char {
    if n < 10 {
        (0x30 + n) as char
    } else {
        (0x61 + n - 10) as char
    }
}

/// Lowercase hex text of a byte string: two digits per byte.
pub open spec fn spec_hex_encode(b: Seq<u8>) -> Seq<char> {
    Seq::new(2 * b.len(), |i: int| if i % 2 == 0 { hex_char((b[i / 2] / 16) as int) } else { hex_char((b[i / 2] % 16) as int) })
}

/// The message `hex::FromHexError` displays for a rejected input.
pub uninterp spec fn spec_hex_error_text(s: Seq<u8>) -> Seq<char>;

/// `hex::decode`: accepts an even number of hex digits of either case and
/// returns the bytes they denote; otherwise its error, as display text.
#[verifier::external_body]
pub(crate) fn hex_decode(s: &[u8]) -> (r: Result<Vec<u8>, String>)
    ensures
        r is Ok <==> spec_hex_decode(s@) is Some,
        r matches Ok(v) ==> spec_hex_decode(s@) == Some(v@),
        r matches Err(m) ==> m@ == spec_hex_error_text(s@),
{
    match hex::decode(s) {
        Ok(v) => Ok(v),
        Err(e) => Err(e.to_string()),
    }
}

/// `hex::encode`: lowercase hex text, two digits per byte.
#[verifier::external_body]
pub(crate) fn hex_encode(b: &[u8]) -> (r: String)
    ensures
        r@ == spec_hex_encode(b@),
{
    hex::encode(b)
}

/// The ASCII byte of a hex digit, and the value it reads back as.
proof fn lemma_hex_char(n: int)
    requires
        0 <= n < 16,
    ensures
        '\0' <= hex_char(n) <= '\u{7f}',
        hex_digit_value(hex_char(n) as u8) == Some(n as u8),
{
    if n < 10 {
        assert(((0x30 + n) as char) as u32 == 0x30 + n);
        assert(((0x30 + n) as char) as u8 == 0x30 + n);
    } else {
        assert(((0x61 + n - 10) as char) as u32 == 0x61 + n - 10);
        assert(((0x61 + n - 10) as char) as u8 == 0x61 + n - 10);
    }
}

/// Hex text is ASCII.
pub proof fn lemma_hex_text_ascii(b: Seq<u8>)
    ensures
        vstd::utf8::is_ascii_chars(spec_hex_encode(b)),
        encode_utf8(spec_hex_encode(b)).len() == 2 * b.len(),
{
    let e = spec_hex_encode(b);
    assert forall|i: int| 0 <= i < e.len() implies '\0' <= #[trigger] e[i] <= '\u{7f}' by {
        if i % 2 == 0 {
            lemma_hex_char((b[i / 2] / 16) as int);
        } else {
            lemma_hex_char((b[i / 2] % 16) as int);
        }
    }
    vstd::utf8::is_ascii_chars_encode_utf8(e);
}

/// Decoding the hex text of bytes gives the bytes back.
pub proof fn law_hex_roundtrip(b: Seq<u8>)
    ensures
        spec_hex_decode(encode_utf8(spec_hex_encode(b))) == Some(b),
{
    let e = spec_hex_encode(b);
    lemma_hex_text_ascii(b);
    vstd::utf8::is_ascii_chars_encode_utf8(e);
    let t = encode_utf8(e);
    assert forall|i: int| 0 <= i < t.len() implies #[trigger] hex_digit_value(t[i]) == Some(
        (if i % 2 == 0 { b[i / 2] / 16 } else { b[i / 2] % 16 }) as u8,
    ) by {
        assert(t[i] == e[i] as u8);
        if i % 2 == 0 {
            lemma_hex_char((b[i / 2] / 16) as int);
        } else {
            lemma_hex_char((b[i / 2] % 16) as int);
        }
    }
    assert(!(exists|i: int| 0 <= i < t.len() && #[trigger] hex_digit_value(t[i]) is None));
    let d = Seq::new(
        t.len() / 2,
        |i: int| (hex_digit_value(t[2 * i]).unwrap() * 16 + hex_digit_value(t[2 * i + 1]).unwrap()) as u8,
    );
    assert forall|i: int| 0 <= i < b.len() implies d[i] == b[i] by {
        assert(hex_digit_value(t[2 * i]) == Some((b[i] / 16) as u8));
        assert(hex_digit_value(t[2 * i + 1]) == Some((b[i] % 16) as u8));
        assert((2 * i) / 2 == i);
        assert((2 * i + 1) / 2 == i);
        assert((2 * i) % 2 == 0);
        assert((2 * i + 1) % 2 == 1);
    }
    assert(d =~= b);
}

} // verus!

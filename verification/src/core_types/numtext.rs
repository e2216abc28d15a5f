//! Unsigned decimal text read back into numbers, as `str::parse::<u64>` reads it.
use vstd::prelude::*;
use vstd::string::StringSliceAdditionalSpecFns;
use vstd::utf8::encode_utf8;
use crate::core_types::error::{digit_char, spec_decimal};

verus! {

pub open spec fn is_digit_byte(b: u8) -> bool {
    48 <= b <= 57
}

/// The value of decimal digit bytes, most significant first.
pub open spec fn digits_value(d: Seq<u8>) -> nat
    decreases d.len(),
{
    if d.len() == 0 {
        0
    } else {
        digits_value(d.drop_last()) * 10 + (d.last() - 48) as nat
    }
}

/// The digits of unsigned text: one leading `+` is allowed.
pub open spec fn unsigned_digits(b: Seq<u8>) -> Seq<u8> {
    if b.len() > 0 && b[0] == 43 {
        b.drop_first()
    } else {
        b
    }
}

pub open spec fn all_digits(d: Seq<u8>) -> bool {
    forall|i: int| 0 <= i < d.len() ==> is_digit_byte(#[trigger] d[i])
}

/// The `u64` that text with these bytes denotes: an optional `+`, then at
/// least one decimal digit and nothing else, with a value that fits.
pub open spec fn spec_parse_u64(b: Seq<u8>) -> Option<u64> {
    let d = unsigned_digits(b);
    if d.len() > 0 && all_digits(d) && digits_value(d) <= u64::MAX {
        Some(digits_value(d) as u64)
    } else {
        None
    }
}

/// A longer run of digits is worth at least as much as its prefix.
proof fn lemma_digits_value_prefix(d: Seq<u8>, k: int)
    requires
        0 <= k <= d.len(),
        all_digits(d),
    ensures
        digits_value(d.subrange(0, k)) <= digits_value(d),
    decreases d.len() - k,
{
    if k < d.len() {
        lemma_digits_value_prefix(d, k + 1);
        let p = d.subrange(0, k + 1);
        assert(p.drop_last() =~= d.subrange(0, k));
        assert(is_digit_byte(d[k]));
    } else {
        assert(d.subrange(0, k) =~= d);
    }
}

/// Read unsigned decimal text (`str::parse::<u64>`): `None` for empty text,
/// a non-digit, or a value above `u64::MAX`.
pub fn parse_u64(s: &str) -> (r: Option<u64>)
    ensures
        r == spec_parse_u64(s.spec_bytes()),
{
    parse_u64_bytes(s.as_bytes())
}

/// `parse_u64`, with a value that does not parse read as 0.
pub fn parse_u64_or_zero(s: &str) -> (r: u64)
    ensures
        r == (match spec_parse_u64(s.spec_bytes()) {
            Some(v) => v,
            None => 0,
        }),
{
    match parse_u64(s) {
        Some(v) => v,
        None => 0,
    }
}

/// `parse_u64` on the UTF-8 bytes of the text.
pub fn parse_u64_bytes(b: &[u8]) -> (r: Option<u64>)
    ensures
        r == spec_parse_u64(b@),
{
    let ghost bs = b@;
    let n: usize = b.len();
    let mut start: usize = 0;
    if n > 0 && b[0] == 43 {
        start = 1;
    }
    let ghost d = unsigned_digits(bs);
    assert(d =~= bs.subrange(start as int, n as int));
    if start >= n {
        return None;
    }
    let mut acc: u64 = 0;
    let mut i: usize = start;
    assert(d.subrange(0, 0) =~= Seq::<u8>::empty());
    while i < n
        invariant
            start <= i <= n,
            n == bs.len(),
            b@ == bs,
            d == bs.subrange(start as int, n as int),
            d == unsigned_digits(bs),
            forall|j: int| 0 <= j < i - start ==> is_digit_byte(#[trigger] d[j]),
            acc == digits_value(d.subrange(0, i - start)),
        decreases n - i,
    {
        let c: u8 = b[i];
        let ghost k: int = i - start;
        assert(d[k] == c);
        if c < 48 || c > 57 {
            assert(!all_digits(d));
            return None;
        }
        let dv: u64 = (c - 48) as u64;
        let ghost p = d.subrange(0, k + 1);
        assert(p.drop_last() =~= d.subrange(0, k));
        assert(digits_value(p) == acc * 10 + dv);
        if acc > (u64::MAX - dv) / 10 {
            assert(acc * 10 + dv > u64::MAX) by (nonlinear_arith)
                requires
                    acc > (u64::MAX - dv) / 10,
                    dv <= 9,
            ;
            proof {
                if all_digits(d) {
                    lemma_digits_value_prefix(d, k + 1);
                }
            }
            return None;
        }
        assert(acc * 10 + dv <= u64::MAX) by (nonlinear_arith)
            requires
                acc <= (u64::MAX - dv) / 10,
                dv <= 9,
        ;
        acc = acc * 10 + dv;
        i = i + 1;
    }
    assert(d.subrange(0, (n - start) as int) =~= d);
    Some(acc)
}

/// The bytes of ASCII text, one per character.
pub open spec fn ascii_bytes(cs: Seq<char>) -> Seq<u8> {
    Seq::new(cs.len(), |i: int| cs[i] as u8)
}

proof fn lemma_digit_char(d: nat)
    requires
        d < 10,
    ensures
        digit_char(d) as u8 == 48 + d,
        '\0' <= digit_char(d) <= '\u{7f}',
{
    assert(((48 + d) as char) as u32 == 48 + d);
    assert(((48 + d) as char) as u8 == 48 + d);
}

/// Decimal text is ASCII digits whose value is the number.
pub proof fn lemma_decimal_digits(n: nat)
    ensures
        spec_decimal(n).len() > 0,
        vstd::utf8::is_ascii_chars(spec_decimal(n)),
        all_digits(ascii_bytes(spec_decimal(n))),
        digits_value(ascii_bytes(spec_decimal(n))) == n,
    decreases n,
{
    let t = spec_decimal(n);
    let a = ascii_bytes(t);
    if n < 10 {
        lemma_digit_char(n);
        assert(a.drop_last() =~= Seq::<u8>::empty());
        assert(a.last() == 48 + n);
        assert(digits_value(a) == digits_value(a.drop_last()) * 10 + (a.last() - 48) as nat);
    } else {
        lemma_decimal_digits(n / 10);
        lemma_digit_char(n % 10);
        let s0 = spec_decimal(n / 10);
        assert(t == s0.push(digit_char(n % 10)));
        assert(a.drop_last() =~= ascii_bytes(s0));
        assert(a.last() == digit_char(n % 10) as u8);
        assert(digits_value(a) == digits_value(a.drop_last()) * 10 + (a.last() - 48) as nat);
        assert(n == (n / 10) * 10 + n % 10);
        assert forall|i: int| 0 <= i < a.len() implies is_digit_byte(#[trigger] a[i]) by {
            if i < a.len() - 1 {
                assert(a[i] == ascii_bytes(s0)[i]);
            }
        }
        assert forall|i: int| 0 <= i < t.len() implies '\0' <= #[trigger] t[i] <= '\u{7f}' by {
            if i < t.len() - 1 {
                assert(t[i] == s0[i]);
            }
        }
    }
}

/// The stored form of decimal text is its ASCII bytes.
pub proof fn lemma_decimal_bytes(n: nat)
    ensures
        encode_utf8(spec_decimal(n)) == ascii_bytes(spec_decimal(n)),
        encode_utf8(spec_decimal(n)).len() > 0,
        all_digits(encode_utf8(spec_decimal(n))),
        digits_value(encode_utf8(spec_decimal(n))) == n,
{
    lemma_decimal_digits(n);
    vstd::utf8::is_ascii_chars_encode_utf8(spec_decimal(n));
    assert(encode_utf8(spec_decimal(n)) =~= ascii_bytes(spec_decimal(n)));
}

/// Decimal text reads back as the number written.
pub proof fn law_decimal_parses_back(n: u64)
    ensures
        spec_parse_u64(encode_utf8(spec_decimal(n as nat))) == Some(n),
{
    lemma_decimal_bytes(n as nat);
    let b = encode_utf8(spec_decimal(n as nat));
    assert(b[0] != 43u8) by {
        assert(is_digit_byte(b[0]));
    }
    assert(unsigned_digits(b) == b);
}

} // verus!

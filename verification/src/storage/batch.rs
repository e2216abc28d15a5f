//! Atomic key-value batches, what a batch does to a store, and the key layout
//! of the block store: keys are text, stored as their UTF-8 bytes.
use vstd::prelude::*;
use vstd::string::StringSliceAdditionalSpecFns;
use vstd::utf8::encode_utf8;
use crate::core_types::address::Address;
use crate::core_types::error::{decimal, spec_decimal};
use crate::core_types::hash::extend_bytes;
use crate::core_types::hex::{hex_encode, spec_hex_encode, spec_hex_decode, spec_hex_error_text, lemma_hex_text_ascii, law_hex_roundtrip};
use crate::core_types::address::address_length_error;
use crate::core_types::numtext::{spec_parse_u64, parse_u64_bytes, is_digit_byte, lemma_decimal_digits, lemma_decimal_bytes, law_decimal_parses_back};
use crate::core_types::hex::hex_digit_value;

verus! {

/// One write of an atomic batch: set a key, or remove it.
#[derive(Debug, Clone)]
pub enum KvOp {
    Put(Vec<u8>, Vec<u8>),
    Delete(Vec<u8>),
}

impl View for KvOp {
    /// The key, and the value it is set to (`None`: the key is removed).
    type V = (Seq<u8>, Option<Seq<u8>>);

    open spec fn view(&self) -> (Seq<u8>, Option<Seq<u8>>) {
        match self {
            KvOp::Put(k, v) => (k@, Some(v@)),
            KvOp::Delete(k) => (k@, None),
        }
    }
}

/// The writes of a batch, in order.
pub open spec fn writes(ops: Seq<KvOp>) -> Seq<(Seq<u8>, Option<Seq<u8>>)> {
    ops.map_values(|o: KvOp| o@)
}

/// A store after one write.
pub open spec fn apply_write(s: Map<Seq<u8>, Seq<u8>>, w: (Seq<u8>, Option<Seq<u8>>)) -> Map<Seq<u8>, Seq<u8>> {
    match w.1 {
        Some(v) => s.insert(w.0, v),
        None => s.remove(w.0),
    }
}

/// A store after a batch of writes, applied in order.
pub open spec fn apply_writes(s: Map<Seq<u8>, Seq<u8>>, ws: Seq<(Seq<u8>, Option<Seq<u8>>)>) -> Map<Seq<u8>, Seq<u8>>
    decreases ws.len(),
{
    if ws.len() == 0 {
        s
    } else {
        apply_write(apply_writes(s, ws.drop_last()), ws.last())
    }
}

/// Set the text key `k`.
pub open spec fn put(k: Seq<char>, v: Seq<u8>) -> (Seq<u8>, Option<Seq<u8>>) {
    (encode_utf8(k), Some(v))
}

/// Remove the text key `k`.
pub open spec fn del(k: Seq<char>) -> (Seq<u8>, Option<Seq<u8>>) {
    (encode_utf8(k), None)
}

/// The stored form of a decimal number.
pub open spec fn dec_bytes(n: nat) -> Seq<u8> {
    encode_utf8(spec_decimal(n))
}

pub open spec fn height_key(h: nat) -> Seq<char> {
    "HEIGHT:"@ + spec_decimal(h)
}

pub open spec fn state_root_key(h: nat) -> Seq<char> {
    "STATE_ROOT:"@ + spec_decimal(h)
}

pub open spec fn finality_cert_key(h: nat) -> Seq<char> {
    "FINALITY_CERT:"@ + spec_decimal(h)
}

pub open spec fn qc_blob_key(h: nat) -> Seq<char> {
    "QC_BLOB:"@ + spec_decimal(h)
}

pub open spec fn tx_index_key(tx_hash: Seq<char>) -> Seq<char> {
    "TX_IDX:"@ + tx_hash
}

pub open spec fn account_key(a: Address) -> Seq<char> {
    "ACCT:"@ + spec_hex_encode(a.0@)
}

pub open spec fn global_header_key(h: nat) -> Seq<char> {
    "GLOBAL_HEADER:"@ + spec_decimal(h)
}

pub open spec fn global_header_hash_key(hash: Seq<char>) -> Seq<char> {
    "GLOBAL_HEADER_HASH:"@ + hash
}

/// The tip: hash of the last committed block.
pub open spec fn last_key() -> Seq<char> {
    "LAST"@
}

pub open spec fn canonical_height_key() -> Seq<char> {
    "CANONICAL_HEIGHT"@
}

/// Set while a durable commit is under way, to the height being committed.
pub open spec fn in_progress_key() -> Seq<char> {
    "IN_PROGRESS_HEIGHT"@
}

pub open spec fn last_global_height_key() -> Seq<char> {
    "LAST_GLOBAL_HEIGHT"@
}

pub open spec fn bridge_state_key() -> Seq<char> {
    "BRIDGE_STATE"@
}

pub open spec fn schema_version_key() -> Seq<char> {
    "SCHEMA_VERSION"@
}

/// The UTF-8 bytes of `t`.
pub fn text_bytes(t: &str) -> (b: Vec<u8>)
    ensures
        b@ == encode_utf8(t@),
{
    let mut v: Vec<u8> = Vec::new();
    extend_bytes(&mut v, t.as_bytes());
    v
}

/// The key `prefix` followed by the decimal text of `n`.
pub fn numbered_key(prefix: &str, n: u64) -> (k: Vec<u8>)
    ensures
        k@ == encode_utf8(prefix@ + spec_decimal(n as nat)),
{
    let mut s: String = prefix.to_owned();
    let d = decimal(n);
    s.append(d.as_str());
    text_bytes(s.as_str())
}

/// The key `prefix` followed by `name`.
pub fn named_key(prefix: &str, name: &str) -> (k: Vec<u8>)
    ensures
        k@ == encode_utf8(prefix@ + name@),
{
    let mut s: String = prefix.to_owned();
    s.append(name);
    text_bytes(s.as_str())
}

/// The stored form of a decimal number.
pub fn decimal_bytes(n: u64) -> (b: Vec<u8>)
    ensures
        b@ == dec_bytes(n as nat),
{
    let d = decimal(n);
    text_bytes(d.as_str())
}

/// The key under which an account is stored: `ACCT:` and its hex address.
pub fn account_key_bytes(a: &Address) -> (k: Vec<u8>)
    ensures
        k@ == encode_utf8(account_key(*a)),
{
    let h = hex_encode(a.as_bytes());
    named_key("ACCT:", h.as_str())
}

/// The bytes of `ACCT:`.
pub open spec fn account_prefix_bytes() -> Seq<u8> {
    seq![65u8, 67u8, 67u8, 84u8, 58u8]
}

/// The address text of a stored account key: the key without its `ACCT:`
/// prefix (a key without the prefix is read whole).
pub open spec fn account_key_hex(k: Seq<u8>) -> Seq<u8> {
    if k.len() >= 5 && k.subrange(0, 5) == account_prefix_bytes() {
        k.subrange(5, k.len() as int)
    } else {
        k
    }
}

/// The address an account key names, read as `Address::from_hex` reads the
/// key's address text.
pub fn account_from_key(key: &str) -> (r: Result<Address, String>)
    ensures
        ({
            let t = account_key_hex(key.spec_bytes());
            &&& r is Ok <==> (spec_hex_decode(t) matches Some(b) && b.len() == 32)
            &&& r matches Ok(a) ==> spec_hex_decode(t) == Some(a.0@)
            &&& r matches Err(m) ==> (spec_hex_decode(t) is None && m@ == spec_hex_error_text(t)) || (
            spec_hex_decode(t) is Some && m@ == address_length_error())
        }),
{
    let b: &[u8] = key.as_bytes();
    let n: usize = b.len();
    if n >= 5 && b[0] == 65 && b[1] == 67 && b[2] == 67 && b[3] == 84 && b[4] == 58 {
        assert(b@.subrange(0, 5) =~= account_prefix_bytes());
        let mut tail: Vec<u8> = Vec::new();
        let mut i: usize = 5;
        while i < n
            invariant
                5 <= i <= n,
                n == b@.len(),
                tail@ == b@.subrange(5, i as int),
            decreases n - i,
        {
            tail.push(b[i]);
            i = i + 1;
            assert(tail@ =~= b@.subrange(5, i as int));
        }
        Address::from_hex_bytes(tail.as_slice())
    } else {
        proof {
            if n >= 5 && b@.subrange(0, 5) == account_prefix_bytes() {
                assert(b@.subrange(0, 5)[0] == b@[0]);
                assert(b@.subrange(0, 5)[1] == b@[1]);
                assert(b@.subrange(0, 5)[2] == b@[2]);
                assert(b@.subrange(0, 5)[3] == b@[3]);
                assert(b@.subrange(0, 5)[4] == b@[4]);
            }
        }
        Address::from_hex_bytes(b)
    }
}

/// The account key written for an address names that address again.
pub proof fn law_account_key_names_address(a: Address)
    ensures
        account_key_hex(encode_utf8(account_key(a))) == encode_utf8(spec_hex_encode(a.0@)),
        spec_hex_decode(account_key_hex(encode_utf8(account_key(a)))) == Some(a.0@),
{
    reveal_strlit("ACCT:");
    let h = spec_hex_encode(a.0@);
    let whole = "ACCT:"@ + h;
    lemma_hex_text_ascii(a.0@);
    law_hex_roundtrip(a.0@);
    assert(vstd::utf8::is_ascii_chars(whole)) by {
        assert forall|i: int| 0 <= i < whole.len() implies '\0' <= #[trigger] whole[i] <= '\u{7f}' by {
            if i >= 5 {
                assert(whole[i] == h[i - 5]);
            }
        }
    }
    vstd::utf8::is_ascii_chars_encode_utf8(whole);
    vstd::utf8::is_ascii_chars_encode_utf8(h);
    let k = encode_utf8(whole);
    assert(k.subrange(0, 5) =~= account_prefix_bytes());
    assert(k.subrange(5, k.len() as int) =~= encode_utf8(h)) by {
        assert forall|i: int| 0 <= i < h.len() implies k.subrange(5, k.len() as int)[i] == #[trigger] encode_utf8(
            h,
        )[i] by {
            assert(whole[5 + i] == h[i]);
        }
    }
}

/// The bytes of `SEEN:`.
pub open spec fn seen_prefix_bytes() -> Seq<u8> {
    seq![83u8, 69u8, 69u8, 78u8, 58u8]
}

/// The key a seen block header is stored under: `SEEN:`, the producer's hex
/// address (or `unknown`), `:` and the height.
pub open spec fn seen_key_text(producer: Option<Address>, index: nat) -> Seq<char> {
    "SEEN:"@ + (match producer {
        Some(a) => spec_hex_encode(a.0@),
        None => "unknown"@,
    }) + ":"@ + spec_decimal(index)
}

/// A seen-block key without its `SEEN:` prefix (a key without it is read
/// whole).
pub open spec fn seen_key_rest(k: Seq<u8>) -> Seq<u8> {
    if k.len() >= 5 && k.subrange(0, 5) == seen_prefix_bytes() {
        k.subrange(5, k.len() as int)
    } else {
        k
    }
}

/// The position of the only `:` in `r`, if it has exactly one.
pub open spec fn single_colon(r: Seq<u8>) -> Option<int> {
    if exists|p: int| 0 <= p < r.len() && r[p] == 58 && (forall|q: int| 0 <= q < r.len() && q != p ==> r[q] != 58) {
        Some(choose|p: int| 0 <= p < r.len() && r[p] == 58 && (forall|q: int| 0 <= q < r.len() && q != p ==> r[q] != 58))
    } else {
        None
    }
}

pub fn seen_key(producer: Option<Address>, index: u64) -> (k: Vec<u8>)
    ensures
        k@ == encode_utf8(seen_key_text(producer, index as nat)),
{
    let mut s: String = "SEEN:".to_owned();
    match producer {
        Some(a) => {
            let h = hex_encode(a.as_bytes());
            s.append(h.as_str());
        },
        None => s.append("unknown"),
    }
    s.append(":");
    s.append(decimal(index).as_str());
    text_bytes(s.as_str())
}

/// Read a seen-block key: a rest (after `SEEN:`) that does not split at a
/// single `:` into two parts is skipped (`Ok(None)`); otherwise the first
/// part is read as an address (its error is returned) and the second as a
/// height, 0 when it does not parse.
#[verifier::rlimit(30)]
pub fn parse_seen_key(key: &str) -> (r: Result<Option<(Address, u64)>, String>)
    ensures
        ({
            let rest = seen_key_rest(key.spec_bytes());
            match single_colon(rest) {
                None => r == Ok::<Option<(Address, u64)>, String>(None),
                Some(p) => {
                    let t = rest.subrange(0, p);
                    let idx = rest.subrange(p + 1, rest.len() as int);
                    &&& r is Ok <==> (spec_hex_decode(t) matches Some(b) && b.len() == 32)
                    &&& r matches Ok(o) ==> (o matches Some(e) && spec_hex_decode(t) == Some(e.0.0@) && e.1 == (
                    match spec_parse_u64(idx) {
                        Some(v) => v,
                        None => 0,
                    }))
                    &&& r matches Err(m) ==> (spec_hex_decode(t) is None && m@ == spec_hex_error_text(t)) || (
                    spec_hex_decode(t) is Some && m@ == address_length_error())
                },
            }
        }),
{
    let b: &[u8] = key.as_bytes();
    let n: usize = b.len();
    let mut start: usize = 0;
    if n >= 5 && b[0] == 83 && b[1] == 69 && b[2] == 69 && b[3] == 78 && b[4] == 58 {
        assert(b@.subrange(0, 5) =~= seen_prefix_bytes());
        start = 5;
    } else {
        proof {
            if n >= 5 && b@.subrange(0, 5) == seen_prefix_bytes() {
                assert(b@.subrange(0, 5)[0] == b@[0]);
                assert(b@.subrange(0, 5)[1] == b@[1]);
                assert(b@.subrange(0, 5)[2] == b@[2]);
                assert(b@.subrange(0, 5)[3] == b@[3]);
                assert(b@.subrange(0, 5)[4] == b@[4]);
            }
        }
    }
    let ghost rest = seen_key_rest(b@);
    assert(rest =~= b@.subrange(start as int, n as int));
    let mut colons: usize = 0;
    let mut pos: usize = 0;
    let mut i: usize = start;
    while i < n
        invariant
            start <= i <= n,
            n == b@.len(),
            rest == b@.subrange(start as int, n as int),
            colons <= i - start,
            colons == 0 ==> forall|q: int| 0 <= q < i - start ==> rest[q] != 58,
            colons >= 1 ==> start <= pos < i && b@[pos as int] == 58,
            colons == 1 ==> forall|q: int| 0 <= q < i - start && q != pos - start ==> rest[q] != 58,
            colons >= 2 ==> exists|q1: int, q2: int| 0 <= q1 < q2 < i - start && rest[q1] == 58 && rest[q2] == 58,
        decreases n - i,
    {
        if b[i] == 58 {
            if colons == 1 {
                assert(rest[pos - start] == 58 && rest[i - start] == 58);
            }
            if colons == 0 {
                pos = i;
            }
            if colons < 2 {
                colons = colons + 1;
            }
        }
        i = i + 1;
    }
    if colons != 1 {
        proof {
            if colons == 0 {
                assert(!(exists|p: int| 0 <= p < rest.len() && rest[p] == 58 && (forall|q: int| 0 <= q < rest.len() && q != p ==> rest[q] != 58)));
            } else {
                let (q1, q2) = choose|q1: int, q2: int| 0 <= q1 < q2 < rest.len() && rest[q1] == 58 && rest[q2] == 58;
                assert forall|p: int| 0 <= p < rest.len() && rest[p] == 58 implies !(forall|q: int| 0 <= q < rest.len() && q != p ==> rest[q] != 58) by {
                    if p == q1 {
                        assert(rest[q2] == 58);
                    } else {
                        assert(rest[q1] == 58);
                    }
                }
            }
        }
        return Ok(None);
    }
    let ghost p = pos - start;
    proof {
        assert(0 <= p < rest.len() && rest[p] == 58 && (forall|q: int| 0 <= q < rest.len() && q != p ==> rest[q] != 58));
        let c = choose|c: int| 0 <= c < rest.len() && rest[c] == 58 && (forall|q: int| 0 <= q < rest.len() && q != c ==> rest[q] != 58);
        assert(c == p);
    }
    let mut head: Vec<u8> = Vec::new();
    let mut j: usize = start;
    while j < pos
        invariant
            start <= j <= pos,
            pos < n,
            n == b@.len(),
            head@ == b@.subrange(start as int, j as int),
        decreases pos - j,
    {
        head.push(b[j]);
        j = j + 1;
        assert(head@ =~= b@.subrange(start as int, j as int));
    }
    let mut tail: Vec<u8> = Vec::new();
    let mut k: usize = pos + 1;
    while k < n
        invariant
            pos + 1 <= k <= n,
            n == b@.len(),
            tail@ == b@.subrange(pos + 1, k as int),
        decreases n - k,
    {
        tail.push(b[k]);
        k = k + 1;
        assert(tail@ =~= b@.subrange(pos + 1, k as int));
    }
    assert(head@ =~= rest.subrange(0, p));
    assert(tail@ =~= rest.subrange(p + 1, rest.len() as int));
    let producer = Address::from_hex_bytes(head.as_slice())?;
    let index: u64 = match parse_u64_bytes(tail.as_slice()) {
        Some(v) => v,
        None => 0,
    };
    Ok(Some((producer, index)))
}

/// The seen-block key written for a producer and height reads back as that
/// producer and height: its rest splits at one `:` into the producer's hex
/// address and the height's decimal text.
pub proof fn law_seen_key_roundtrip(a: Address, index: u64)
    ensures
        ({
            let rest = seen_key_rest(encode_utf8(seen_key_text(Some(a), index as nat)));
            &&& single_colon(rest) == Some(64int)
            &&& spec_hex_decode(rest.subrange(0, 64)) == Some(a.0@)
            &&& spec_parse_u64(rest.subrange(65, rest.len() as int)) == Some(index)
        }),
{
    reveal_strlit("SEEN:");
    reveal_strlit(":");
    let h = spec_hex_encode(a.0@);
    let d = spec_decimal(index as nat);
    let whole = "SEEN:"@ + h + ":"@ + d;
    assert(seen_key_text(Some(a), index as nat) == whole);
    lemma_hex_text_ascii(a.0@);
    law_hex_roundtrip(a.0@);
    lemma_decimal_digits(index as nat);
    lemma_decimal_bytes(index as nat);
    law_decimal_parses_back(index);
    assert(vstd::utf8::is_ascii_chars(whole)) by {
        assert forall|i: int| 0 <= i < whole.len() implies '\0' <= #[trigger] whole[i] <= '\u{7f}' by {
            if 5 <= i < 5 + h.len() {
                assert(whole[i] == h[i - 5]);
            } else if i > 5 + h.len() {
                assert(whole[i] == d[i - 6 - h.len()]);
            }
        }
    }
    vstd::utf8::is_ascii_chars_encode_utf8(whole);
    vstd::utf8::is_ascii_chars_encode_utf8(h);
    vstd::utf8::is_ascii_chars_encode_utf8(d);
    let k = encode_utf8(whole);
    let eh = encode_utf8(h);
    let ed = encode_utf8(d);
    assert(h.len() == 64);
    assert(k.subrange(0, 5) =~= seen_prefix_bytes());
    let rest = k.subrange(5, k.len() as int);
    assert(seen_key_rest(k) == rest);
    assert(rest.subrange(0, 64) =~= eh) by {
        assert forall|i: int| 0 <= i < 64 implies rest.subrange(0, 64)[i] == #[trigger] eh[i] by {
            assert(whole[5 + i] == h[i]);
        }
    }
    assert(rest.subrange(65, rest.len() as int) =~= ed) by {
        assert forall|i: int| 0 <= i < d.len() implies rest.subrange(65, rest.len() as int)[i] == #[trigger] ed[i] by {
            assert(whole[70 + i] == d[i]);
        }
    }
    assert(rest[64] == 58u8) by {
        assert(whole[69] == ':');
    }
    assert forall|q: int| 0 <= q < rest.len() && q != 64 implies rest[q] != 58 by {
        if q < 64 {
            assert(rest[q] == eh[q]);
            assert(hex_digit_value(eh[q]) is Some);
        } else {
            assert(rest[q] == ed[q - 65]);
            assert(is_digit_byte(ed[q - 65]));
        }
    }
    let c = choose|c: int| 0 <= c < rest.len() && rest[c] == 58 && (forall|q: int| 0 <= q < rest.len() && q != c ==> rest[q] != 58);
    assert(c == 64);
}

} // verus!

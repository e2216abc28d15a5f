//! RLP (Recursive Length Prefix), Ethereum Yellow Paper Appendix B.
//!
//! `decode` is strict canonical: a non-canonical encoding (for example
//! `0x81 0x00` in place of `0x00`, or a long-form length below 56) is rejected
//! with `RlpError::NonCanonical`. Together with the round-trip law this closes
//! encoding malleability: one value has exactly one accepted byte string.
use vstd::prelude::*;

verus! {

/// An RLP value as the executable code holds it.
#[derive(Debug, PartialEq, Eq)]
pub enum RlpItem {
    /// Byte string (Ethereum "string"); empty is `vec![]`.
    Bytes(Vec<u8>),
    /// List of nested items.
    List(Vec<RlpItem>),
}

#[derive(Debug, Clone, Copy, PartialEq, Eq)]
pub enum RlpError {
    /// The input ended where more bytes were expected.
    UnexpectedEnd,
    /// Bytes are left after the single item.
    TrailingBytes,
    /// The encoding is valid but not canonical.
    NonCanonical,
    /// A zero length-of-length field.
    ZeroLength,
}

impl RlpError {
    /// Human-readable description of the error.
    pub fn describe(&self) -> (s: &'static str)
        ensures
            s@ == (match *self {
                RlpError::UnexpectedEnd => "rlp: unexpected end of input"@,
                RlpError::TrailingBytes => "rlp: trailing bytes after single item"@,
                RlpError::NonCanonical => "rlp: non-canonical encoding"@,
                RlpError::ZeroLength => "rlp: zero length-of-length"@,
            }),
    {
        match self {
            RlpError::UnexpectedEnd => "rlp: unexpected end of input",
            RlpError::TrailingBytes => "rlp: trailing bytes after single item",
            RlpError::NonCanonical => "rlp: non-canonical encoding",
            RlpError::ZeroLength => "rlp: zero length-of-length",
        }
    }
}

/// The mathematical RLP value: the model of `RlpItem`.
pub enum RlpTree {
    Bytes(Seq<u8>),
    List(Seq<RlpTree>),
}

impl RlpItem {
    /// The mathematical value this item denotes.
    pub open spec fn tree(self) -> RlpTree
        decreases self,
    {
        match self {
            RlpItem::Bytes(b) => RlpTree::Bytes(b@),
            RlpItem::List(v) => RlpTree::List(item_trees(v@)),
        }
    }
}

/// The values of a sequence of items, in order.
pub open spec fn item_trees(s: Seq<RlpItem>) -> Seq<RlpTree>
    decreases s,
{
    if s.len() == 0 {
        Seq::empty()
    } else {
        item_trees(s.drop_last()).push(s.last().tree())
    }
}

// ---------------------------------------------------------------------------
// Specification of the encoding
// ---------------------------------------------------------------------------

/// Minimal big-endian bytes of `n` (no leading zero; `0` gives the empty sequence).
pub open spec fn be_bytes(n: nat) -> Seq<u8>
    decreases n,
{
    if n == 0 {
        Seq::empty()
    } else {
        be_bytes(n / 256).push((n % 256) as u8)
    }
}

/// The number a big-endian byte sequence denotes.
pub open spec fn be_value(s: Seq<u8>) -> nat
    decreases s.len(),
{
    if s.len() == 0 {
        0
    } else {
        be_value(s.drop_last()) * 256 + (s.last() as nat)
    }
}

/// Length prefix: `offset + len` below 56, else `offset + 55 + |len bytes|` and the bytes.
pub open spec fn length_prefix(len: nat, offset: u8) -> Seq<u8> {
    if len < 56 {
        seq![(offset + len) as u8]
    } else {
        seq![(offset + 55 + be_bytes(len).len()) as u8] + be_bytes(len)
    }
}

/// The canonical RLP encoding of a value.
pub open spec fn encode_tree(t: RlpTree) -> Seq<u8>
    decreases t,
{
    match t {
        RlpTree::Bytes(b) => if b.len() == 1 && b[0] <= 0x7f {
            b
        } else {
            length_prefix(b.len(), 0x80) + b
        },
        RlpTree::List(items) => {
            let p = encode_list_payload(items);
            length_prefix(p.len(), 0xc0) + p
        },
    }
}

/// The concatenated encodings of a list's elements.
pub open spec fn encode_list_payload(items: Seq<RlpTree>) -> Seq<u8>
    decreases items,
{
    if items.len() == 0 {
        Seq::empty()
    } else {
        encode_tree(items[0]) + encode_list_payload(items.subrange(1, items.len() as int))
    }
}

// ---------------------------------------------------------------------------
// Specification of the strict decoder
// ---------------------------------------------------------------------------

pub open spec fn has_leading_zero(b: Seq<u8>) -> bool {
    b.len() > 1 && b[0] == 0
}

/// Long-form header with `lol` length bytes: the payload start and length.
pub open spec fn long_header(b: Seq<u8>, lol: nat) -> Result<(nat, nat), RlpError> {
    let lh_end = 1 + lol;
    if b.len() < lh_end {
        Err(RlpError::UnexpectedEnd)
    } else {
        let h = b.subrange(1, lh_end as int);
        let v = be_value(h);
        if v > usize::MAX {
            Err(RlpError::UnexpectedEnd)
        } else if has_leading_zero(h) {
            Err(RlpError::NonCanonical)
        } else if b.len() < lh_end + v {
            Err(RlpError::UnexpectedEnd)
        } else if v < 56 {
            Err(RlpError::NonCanonical)
        } else {
            Ok((lh_end, v))
        }
    }
}

/// Decode one item at the start of `b`: the value and the bytes it takes.
pub open spec fn decode_tree(b: Seq<u8>) -> Result<(RlpTree, nat), RlpError>
    decreases b.len(), 0nat,
{
    if b.len() == 0 {
        Err(RlpError::UnexpectedEnd)
    } else if b[0] <= 0x7f {
        Ok((RlpTree::Bytes(seq![b[0]]), 1))
    } else if b[0] <= 0xb7 {
        let len = (b[0] - 0x80) as nat;
        let end = 1 + len;
        if b.len() < end {
            Err(RlpError::UnexpectedEnd)
        } else {
            let data = b.subrange(1, end as int);
            if len == 1 && data[0] <= 0x7f {
                Err(RlpError::NonCanonical)
            } else {
                Ok((RlpTree::Bytes(data), end))
            }
        }
    } else if b[0] <= 0xbf {
        match long_header(b, (b[0] - 0xb7) as nat) {
            Err(e) => Err(e),
            Ok((s, len)) => Ok((RlpTree::Bytes(b.subrange(s as int, (s + len) as int)), s + len)),
        }
    } else if b[0] <= 0xf7 {
        let len = (b[0] - 0xc0) as nat;
        let end = 1 + len;
        if b.len() < end {
            Err(RlpError::UnexpectedEnd)
        } else {
            match decode_list(b.subrange(1, end as int)) {
                Err(e) => Err(e),
                Ok(items) => Ok((RlpTree::List(items), end)),
            }
        }
    } else {
        match long_header(b, (b[0] - 0xf7) as nat) {
            Err(e) => Err(e),
            Ok((s, len)) => if s + len <= b.len() {
                match decode_list(b.subrange(s as int, (s + len) as int)) {
                    Err(e) => Err(e),
                    Ok(items) => Ok((RlpTree::List(items), s + len)),
                }
            } else {
                Err(RlpError::UnexpectedEnd)
            },
        }
    }
}

/// Decode a list payload that must be consumed exactly by its items.
pub open spec fn decode_list(p: Seq<u8>) -> Result<Seq<RlpTree>, RlpError>
    decreases p.len(), 1nat,
{
    if p.len() == 0 {
        Ok(Seq::empty())
    } else {
        match decode_tree(p) {
            Err(e) => Err(e),
            Ok((t, c)) => if c == 0 || c > p.len() {
                Err(RlpError::UnexpectedEnd)
            } else {
                match decode_list(p.subrange(c as int, p.len() as int)) {
                    Err(e) => Err(e),
                    Ok(rest) => Ok(seq![t] + rest),
                }
            },
        }
    }
}

/// Decode exactly one item; anything left over is `TrailingBytes`.
pub open spec fn spec_decode(b: Seq<u8>) -> Result<RlpTree, RlpError> {
    match decode_tree(b) {
        Err(e) => Err(e),
        Ok((t, c)) => if c != b.len() {
            Err(RlpError::TrailingBytes)
        } else {
            Ok(t)
        },
    }
}


// ---------------------------------------------------------------------------
// Lemmas on big-endian numbers
// ---------------------------------------------------------------------------

pub open spec fn pow256(k: nat) -> nat
    decreases k,
{
    if k == 0 {
        1
    } else {
        256 * pow256((k - 1) as nat)
    }
}

proof fn lemma_be_value_of_be_bytes(n: nat)
    ensures
        be_value(be_bytes(n)) == n,
    decreases n,
{
    if n > 0 {
        lemma_be_value_of_be_bytes(n / 256);
        let s = be_bytes(n);
        assert(s.drop_last() =~= be_bytes(n / 256));
    }
}

proof fn lemma_be_bytes_leading(n: nat)
    requires
        n > 0,
    ensures
        be_bytes(n).len() >= 1,
        be_bytes(n)[0] != 0,
    decreases n,
{
    if n / 256 > 0 {
        lemma_be_bytes_leading(n / 256);
    } else {
        assert(be_bytes(n / 256) =~= Seq::<u8>::empty());
        assert(n % 256 == n);
    }
}

proof fn lemma_be_bytes_len(n: nat, k: nat)
    requires
        n < pow256(k),
    ensures
        be_bytes(n).len() <= k,
    decreases k,
{
    if n > 0 {
        if k == 0 {
            assert(false);
        } else {
            let p = pow256((k - 1) as nat);
            assert(n / 256 < p) by (nonlinear_arith)
                requires
                    n < 256 * p,
            ;
            lemma_be_bytes_len(n / 256, (k - 1) as nat);
        }
    }
}

/// Every `usize` has at most eight length bytes.
proof fn lemma_be_bytes_len_usize(n: nat)
    requires
        n <= usize::MAX,
    ensures
        be_bytes(n).len() <= 8,
{
    assert(pow256(8) == 0x1_0000_0000_0000_0000) by {
        reveal_with_fuel(pow256, 9);
    }
    lemma_be_bytes_len(n, 8);
}

proof fn lemma_be_value_prefix(s: Seq<u8>, j: int)
    requires
        0 <= j <= s.len(),
    ensures
        be_value(s.subrange(0, j)) <= be_value(s),
    decreases s.len(),
{
    if j < s.len() {
        let d = s.drop_last();
        lemma_be_value_prefix(d, j);
        assert(d.subrange(0, j) =~= s.subrange(0, j));
    } else {
        assert(s.subrange(0, j) =~= s);
    }
}

proof fn lemma_be_value_step(s: Seq<u8>, i: int)
    requires
        0 <= i < s.len(),
    ensures
        be_value(s.subrange(0, i + 1)) == be_value(s.subrange(0, i)) * 256 + s[i],
{
    assert(s.subrange(0, i + 1).drop_last() =~= s.subrange(0, i));
}

/// A byte string without a leading zero is the minimal encoding of its value.
proof fn lemma_be_bytes_of_value(h: Seq<u8>)
    requires
        h.len() == 0 || h[0] != 0,
    ensures
        be_bytes(be_value(h)) == h,
    decreases h.len(),
{
    if h.len() == 0 {
        assert(be_bytes(0) =~= h);
    } else {
        let d = h.drop_last();
        let v = be_value(h);
        lemma_be_value_prefix(h, 1);
        let h1 = h.subrange(0, 1);
        assert(h1.drop_last() =~= Seq::<u8>::empty());
        assert(be_value(h1.drop_last()) == 0);
        assert(h1.last() == h[0]);
        assert(be_value(h1) == h[0]);
        assert(v > 0);
        assert(v / 256 == be_value(d));
        assert(v % 256 == h.last());
        lemma_be_bytes_of_value(d);
        assert(be_bytes(v) =~= h);
    }
}


proof fn lemma_be_value_single(h: Seq<u8>)
    requires
        h.len() == 1,
    ensures
        be_value(h) == h[0],
{
    assert(h.drop_last() =~= Seq::<u8>::empty());
    assert(be_value(h.drop_last()) == 0);
    assert(h.last() == h[0]);
}

// ---------------------------------------------------------------------------
// The laws of the encoding
// ---------------------------------------------------------------------------

proof fn lemma_encode_nonempty(t: RlpTree)
    ensures
        encode_tree(t).len() >= 1,
{
}

/// Decoding an encoded value, followed by anything, gives the value back and
/// consumes exactly its encoding.
proof fn lemma_decode_encoded(t: RlpTree, rest: Seq<u8>)
    requires
        encode_tree(t).len() <= usize::MAX,
    ensures
        decode_tree(encode_tree(t) + rest) == Ok::<(RlpTree, nat), RlpError>(
            (t, encode_tree(t).len()),
        ),
    decreases t,
{
    let e = encode_tree(t);
    let x = e + rest;
    match t {
        RlpTree::Bytes(b) => {
            if b.len() == 1 && b[0] <= 0x7f {
                assert(x[0] == b[0]);
                assert(seq![b[0]] =~= b);
            } else if b.len() < 56 {
                assert(x[0] == 0x80 + b.len());
                assert(x.subrange(1, (1 + b.len()) as int) =~= b);
            } else {
                let len = b.len();
                let bb = be_bytes(len);
                lemma_be_bytes_len_usize(len);
                lemma_be_bytes_leading(len);
                lemma_be_value_of_be_bytes(len);
                let k = bb.len();
                assert(x[0] == 0xb7 + k);
                assert(x.subrange(1, (1 + k) as int) =~= bb);
                assert(x.subrange((1 + k) as int, (1 + k + len) as int) =~= b);
            }
        },
        RlpTree::List(items) => {
            let p = encode_list_payload(items);
            lemma_decode_payload(items);
            if p.len() < 56 {
                assert(x[0] == 0xc0 + p.len());
                assert(x.subrange(1, (1 + p.len()) as int) =~= p);
            } else {
                let len = p.len();
                let bb = be_bytes(len);
                lemma_be_bytes_len_usize(len);
                lemma_be_bytes_leading(len);
                lemma_be_value_of_be_bytes(len);
                let k = bb.len();
                assert(x[0] == 0xf7 + k);
                assert(x.subrange(1, (1 + k) as int) =~= bb);
                assert(x.subrange((1 + k) as int, (1 + k + len) as int) =~= p);
            }
        },
    }
}

/// A list payload decodes to exactly the items it encodes.
proof fn lemma_decode_payload(items: Seq<RlpTree>)
    requires
        encode_list_payload(items).len() <= usize::MAX,
    ensures
        decode_list(encode_list_payload(items)) == Ok::<Seq<RlpTree>, RlpError>(items),
    decreases items,
{
    let p = encode_list_payload(items);
    if items.len() == 0 {
        assert(items =~= Seq::<RlpTree>::empty());
    } else {
        let t0 = items[0];
        let tail = items.subrange(1, items.len() as int);
        let pt = encode_list_payload(tail);
        lemma_decode_encoded(t0, pt);
        lemma_encode_nonempty(t0);
        let c = encode_tree(t0).len();
        assert(p.subrange(c as int, p.len() as int) =~= pt);
        lemma_decode_payload(tail);
        assert(seq![t0] + tail =~= items);
    }
}

/// Whatever the decoder accepts is the canonical encoding of what it returns.
proof fn lemma_decode_canonical(b: Seq<u8>)
    ensures
        decode_tree(b) matches Ok((t, c)) ==> c <= b.len() && encode_tree(t) == b.subrange(
            0,
            c as int,
        ),
    decreases b.len(), 0nat,
{
    if b.len() == 0 {
    } else if b[0] <= 0x7f {
        assert(b.subrange(0, 1) =~= seq![b[0]]);
    } else if b[0] <= 0xb7 {
        let len = (b[0] - 0x80) as nat;
        let end = 1 + len;
        if b.len() >= end {
            let data = b.subrange(1, end as int);
            assert(b.subrange(0, end as int) =~= seq![b[0]] + data);
        }
    } else if b[0] <= 0xbf {
        let k = (b[0] - 0xb7) as nat;
        lemma_long_header_canonical(b, k);
        if let Ok((s, len)) = long_header(b, k) {
            let h = b.subrange(1, (1 + k) as int);
            let data = b.subrange(s as int, (s + len) as int);
            assert(b.subrange(0, (s + len) as int) =~= seq![b[0]] + h + data);
        }
    } else if b[0] <= 0xf7 {
        let len = (b[0] - 0xc0) as nat;
        let end = 1 + len;
        if b.len() >= end {
            let p = b.subrange(1, end as int);
            lemma_decode_list_canonical(p);
            assert(b.subrange(0, end as int) =~= seq![b[0]] + p);
        }
    } else {
        let k = (b[0] - 0xf7) as nat;
        lemma_long_header_canonical(b, k);
        if let Ok((s, len)) = long_header(b, k) {
            let h = b.subrange(1, (1 + k) as int);
            let p = b.subrange(s as int, (s + len) as int);
            lemma_decode_list_canonical(p);
            assert(b.subrange(0, (s + len) as int) =~= seq![b[0]] + h + p);
        }
    }
}

/// An accepted long-form header is the minimal encoding of its length.
proof fn lemma_long_header_canonical(b: Seq<u8>, k: nat)
    requires
        1 <= k <= 8,
    ensures
        long_header(b, k) matches Ok((s, len)) ==> {
            &&& s == 1 + k
            &&& len >= 56
            &&& s + len <= b.len()
            &&& be_bytes(len) == b.subrange(1, (1 + k) as int)
        },
{
    if let Ok((s, len)) = long_header(b, k) {
        let h = b.subrange(1, (1 + k) as int);
        if h[0] == 0 {
            if k == 1 {
                lemma_be_value_single(h);
            }
            assert(false);
        }
        lemma_be_bytes_of_value(h);
    }
}

/// A list payload accepted by the decoder is the payload of the items returned.
proof fn lemma_decode_list_canonical(p: Seq<u8>)
    ensures
        decode_list(p) matches Ok(items) ==> encode_list_payload(items) == p,
    decreases p.len(), 1nat,
{
    if p.len() == 0 {
        if let Ok(items) = decode_list(p) {
            assert(items =~= Seq::<RlpTree>::empty());
            assert(p =~= Seq::<u8>::empty());
        }
    } else {
        lemma_decode_canonical(p);
        if let Ok((t, c)) = decode_tree(p) {
            if c > 0 && c <= p.len() {
                let r = p.subrange(c as int, p.len() as int);
                lemma_decode_list_canonical(r);
                if let Ok(rest) = decode_list(r) {
                    let items = seq![t] + rest;
                    assert(items[0] == t);
                    assert(items.subrange(1, items.len() as int) =~= rest);
                    assert(p =~= p.subrange(0, c as int) + r);
                }
            }
        }
    }
}


proof fn lemma_payload_push(a: Seq<RlpTree>, x: RlpTree)
    ensures
        encode_list_payload(a.push(x)) == encode_list_payload(a) + encode_tree(x),
    decreases a.len(),
{
    if a.len() == 0 {
        let one = a.push(x);
        assert(one.subrange(1, 1) =~= Seq::<RlpTree>::empty());
        assert(one[0] == x);
        assert(encode_list_payload(Seq::<RlpTree>::empty()) =~= Seq::<u8>::empty());
        assert(encode_list_payload(one) =~= encode_tree(x));
        assert(a =~= Seq::<RlpTree>::empty());
    } else {
        let tail = a.subrange(1, a.len() as int);
        lemma_payload_push(tail, x);
        assert(a.push(x).subrange(1, (a.len() + 1) as int) =~= tail.push(x));
        assert(encode_list_payload(a.push(x)) =~= encode_list_payload(a) + encode_tree(x));
    }
}

proof fn lemma_item_trees_step(s: Seq<RlpItem>, i: int)
    requires
        0 <= i < s.len(),
    ensures
        item_trees(s.subrange(0, i + 1)) == item_trees(s.subrange(0, i)).push(s[i].tree()),
{
    assert(s.subrange(0, i + 1).drop_last() =~= s.subrange(0, i));
}

// ---------------------------------------------------------------------------
// Encoding
// ---------------------------------------------------------------------------

fn append_slice(out: &mut Vec<u8>, b: &[u8])
    ensures
        final(out)@ == old(out)@ + b@,
{
    let ghost init = out@;
    let mut i: usize = 0;
    while i < b.len()
        invariant
            0 <= i <= b@.len(),
            out@ == init + b@.subrange(0, i as int),
        decreases b@.len() - i,
    {
        out.push(b[i]);
        i = i + 1;
        assert(out@ =~= init + b@.subrange(0, i as int));
    }
    assert(b@.subrange(0, b@.len() as int) =~= b@);
}

/// Minimal big-endian bytes of `n`.
fn to_minimal_big_endian(n: usize) -> (v: Vec<u8>)
    ensures
        v@ == be_bytes(n as nat),
    decreases n,
{
    if n == 0 {
        Vec::new()
    } else {
        let mut v = to_minimal_big_endian(n / 256);
        v.push((n % 256) as u8);
        v
    }
}

/// The length prefix of a string (`offset == 0x80`) or list (`offset == 0xc0`).
fn encode_length(length: usize, offset: u8) -> (out: Vec<u8>)
    requires
        offset == 0x80 || offset == 0xc0,
    ensures
        out@ == length_prefix(length as nat, offset),
{
    let mut out: Vec<u8> = Vec::new();
    if length < 56 {
        out.push(offset + length as u8);
    } else {
        let len_bytes = to_minimal_big_endian(length);
        proof {
            lemma_be_bytes_len_usize(length as nat);
        }
        out.push(offset + 55 + len_bytes.len() as u8);
        append_slice(&mut out, len_bytes.as_slice());
        assert(out@ =~= length_prefix(length as nat, offset));
    }
    out
}

fn encode_bytes(b: &[u8]) -> (out: Vec<u8>)
    ensures
        out@ == encode_tree(RlpTree::Bytes(b@)),
{
    if b.len() == 1 && b[0] <= 0x7f {
        let mut out: Vec<u8> = Vec::new();
        out.push(b[0]);
        assert(out@ =~= b@);
        return out;
    }
    let mut out = encode_length(b.len(), 0x80);
    append_slice(&mut out, b);
    out
}

/// RLP-encode an item. The output is the canonical encoding.
pub fn encode(item: &RlpItem) -> (out: Vec<u8>)
    ensures
        out@ == encode_tree(item.tree()),
    decreases item,
{
    match item {
        RlpItem::Bytes(b) => encode_bytes(b.as_slice()),
        RlpItem::List(items) => {
            let mut payload: Vec<u8> = Vec::new();
            let mut i: usize = 0;
            assert(forall|j: int| 0 <= j < items@.len() ==> decreases_to!(*item => #[trigger] items@[j]));
            assert(item_trees(items@.subrange(0, 0)) =~= Seq::<RlpTree>::empty());
            while i < items.len()
                invariant
                    0 <= i <= items@.len(),
                    forall|j: int|
                        0 <= j < items@.len() ==> decreases_to!(*item => #[trigger] items@[j]),
                    payload@ == encode_list_payload(item_trees(items@.subrange(0, i as int))),
                decreases items@.len() - i,
            {
                let enc = encode(&items[i]);
                proof {
                    lemma_item_trees_step(items@, i as int);
                    lemma_payload_push(item_trees(items@.subrange(0, i as int)), items@[i as int].tree());
                }
                append_slice(&mut payload, enc.as_slice());
                i = i + 1;
            }
            assert(items@.subrange(0, items@.len() as int) =~= items@);
            let mut out = encode_length(payload.len(), 0xc0);
            append_slice(&mut out, payload.as_slice());
            out
        },
    }
}


// ---------------------------------------------------------------------------
// Decoding (strict canonical)
// ---------------------------------------------------------------------------

/// What the decoder returns for one item, against its specification.
pub open spec fn item_result_matches(
    r: Result<(RlpItem, usize), RlpError>,
    s: Result<(RlpTree, nat), RlpError>,
) -> bool {
    match r {
        Ok((it, c)) => s == Ok::<(RlpTree, nat), RlpError>((it.tree(), c as nat)),
        Err(e) => s == Err::<(RlpTree, nat), RlpError>(e),
    }
}

proof fn lemma_decode_consumed(b: Seq<u8>)
    ensures
        decode_tree(b) matches Ok((t, c)) ==> 1 <= c <= b.len(),
{
}

fn copy_range(bytes: &[u8], from: usize, to: usize) -> (out: Vec<u8>)
    requires
        from <= to <= bytes@.len(),
    ensures
        out@ == bytes@.subrange(from as int, to as int),
{
    let mut out: Vec<u8> = Vec::new();
    let mut i: usize = from;
    while i < to
        invariant
            from <= i <= to <= bytes@.len(),
            out@ == bytes@.subrange(from as int, i as int),
        decreases to - i,
    {
        out.push(bytes[i]);
        i = i + 1;
        assert(out@ =~= bytes@.subrange(from as int, i as int));
    }
    out
}

/// Big-endian value of `bytes[start..end]`; `UnexpectedEnd` when it exceeds `usize`.
fn read_big_endian(bytes: &[u8], start: usize, end: usize) -> (r: Result<usize, RlpError>)
    requires
        start <= end <= bytes@.len(),
    ensures
        match r {
            Ok(v) => v == be_value(bytes@.subrange(start as int, end as int)),
            Err(e) => e == RlpError::UnexpectedEnd && be_value(
                bytes@.subrange(start as int, end as int),
            ) > usize::MAX,
        },
{
    let ghost s = bytes@.subrange(start as int, end as int);
    let mut len: usize = 0;
    let mut i: usize = start;
    assert(s.subrange(0, 0) =~= Seq::<u8>::empty());
    while i < end
        invariant
            start <= i <= end <= bytes@.len(),
            s == bytes@.subrange(start as int, end as int),
            len == be_value(s.subrange(0, i - start)),
        decreases end - i,
    {
        proof {
            lemma_be_value_step(s, i - start);
        }
        let byte: u8 = bytes[i];
        match len.checked_mul(256) {
            None => {
                proof {
                    lemma_be_value_prefix(s, i - start + 1);
                }
                return Err(RlpError::UnexpectedEnd);
            },
            Some(m) => match m.checked_add(byte as usize) {
                None => {
                    proof {
                        lemma_be_value_prefix(s, i - start + 1);
                    }
                    return Err(RlpError::UnexpectedEnd);
                },
                Some(n) => {
                    len = n;
                },
            },
        }
        i = i + 1;
    }
    assert(s.subrange(0, end - start) =~= s);
    Ok(len)
}

/// Parse a long-form header whose first byte is at `start` with `lol` length bytes.
/// Returns the absolute payload start and the payload length.
fn read_long_header(bytes: &[u8], start: usize, end: usize, lol: usize) -> (r: Result<
    (usize, usize),
    RlpError,
>)
    requires
        start < end <= bytes@.len(),
        1 <= lol <= 8,
    ensures
        match (r, long_header(bytes@.subrange(start as int, end as int), lol as nat)) {
            (Ok((s, len)), Ok((s2, len2))) => s == start + s2 && len == len2 && s + len <= end,
            (Err(e), Err(e2)) => e == e2,
            _ => false,
        },
{
    let ghost b = bytes@.subrange(start as int, end as int);
    if end - start < 1 + lol {
        return Err(RlpError::UnexpectedEnd);
    }
    let lh_start: usize = start + 1;
    let lh_end: usize = start + 1 + lol;
    assert(bytes@.subrange(lh_start as int, lh_end as int) =~= b.subrange(1, (1 + lol) as int));
    let len: usize = read_big_endian(bytes, lh_start, lh_end)?;
    if lol > 1 && bytes[lh_start] == 0 {
        return Err(RlpError::NonCanonical);
    }
    // A payload that runs past the input is reported as truncation before
    // the length is checked against the short form.
    match lh_end.checked_add(len) {
        None => {
            return Err(RlpError::UnexpectedEnd);
        },
        Some(data_end) => if data_end > end {
            return Err(RlpError::UnexpectedEnd);
        },
    }
    if len < 56 {
        return Err(RlpError::NonCanonical);
    }
    Ok((lh_end, len))
}

/// Decode one item from `bytes[start..end]`; returns it and the bytes it took.
fn decode_item_at(bytes: &[u8], start: usize, end: usize) -> (r: Result<(RlpItem, usize), RlpError>)
    requires
        start <= end <= bytes@.len(),
    ensures
        item_result_matches(r, decode_tree(bytes@.subrange(start as int, end as int))),
    decreases end - start, 0nat,
{
    let ghost b = bytes@.subrange(start as int, end as int);
    if start == end {
        return Err(RlpError::UnexpectedEnd);
    }
    let first: u8 = bytes[start];
    assert(b[0] == first);
    if first <= 0x7f {
        let mut v: Vec<u8> = Vec::new();
        v.push(first);
        assert(v@ =~= seq![first]);
        Ok((RlpItem::Bytes(v), 1))
    } else if first <= 0xb7 {
        let len: usize = (first - 0x80) as usize;
        if end - start < 1 + len {
            return Err(RlpError::UnexpectedEnd);
        }
        let data_start: usize = start + 1;
        let data = copy_range(bytes, data_start, data_start + len);
        assert(data@ =~= b.subrange(1, (1 + len) as int));
        if len == 1 && data[0] <= 0x7f {
            return Err(RlpError::NonCanonical);
        }
        Ok((RlpItem::Bytes(data), 1 + len))
    } else if first <= 0xbf {
        let lol: usize = (first - 0xb7) as usize;
        if lol == 0 {
            return Err(RlpError::ZeroLength);
        }
        let (data_start, len) = read_long_header(bytes, start, end, lol)?;
        let data = copy_range(bytes, data_start, data_start + len);
        assert(data@ =~= b.subrange((data_start - start) as int, (data_start - start + len) as int));
        Ok((RlpItem::Bytes(data), data_start - start + len))
    } else if first <= 0xf7 {
        let len: usize = (first - 0xc0) as usize;
        if end - start < 1 + len {
            return Err(RlpError::UnexpectedEnd);
        }
        let payload_start: usize = start + 1;
        assert(bytes@.subrange(payload_start as int, (payload_start + len) as int) =~= b.subrange(
            1,
            (1 + len) as int,
        ));
        let items = decode_list_at(bytes, payload_start, payload_start + len)?;
        Ok((RlpItem::List(items), 1 + len))
    } else {
        let lol: usize = (first - 0xf7) as usize;
        if lol == 0 {
            return Err(RlpError::ZeroLength);
        }
        let (payload_start, len) = read_long_header(bytes, start, end, lol)?;
        assert(bytes@.subrange(payload_start as int, (payload_start + len) as int) =~= b.subrange(
            (payload_start - start) as int,
            (payload_start - start + len) as int,
        ));
        let items = decode_list_at(bytes, payload_start, payload_start + len)?;
        Ok((RlpItem::List(items), payload_start - start + len))
    }
}

/// Decode all items of the list payload `bytes[start..end]`, which they must fill exactly.
fn decode_list_at(bytes: &[u8], start: usize, end: usize) -> (r: Result<Vec<RlpItem>, RlpError>)
    requires
        start <= end <= bytes@.len(),
    ensures
        match r {
            Ok(v) => decode_list(bytes@.subrange(start as int, end as int)) == Ok::<
                Seq<RlpTree>,
                RlpError,
            >(item_trees(v@)),
            Err(e) => decode_list(bytes@.subrange(start as int, end as int)) == Err::<
                Seq<RlpTree>,
                RlpError,
            >(e),
        },
    decreases end - start, 1nat,
{
    let mut items: Vec<RlpItem> = Vec::new();
    let mut pos: usize = start;
    assert(item_trees(items@) =~= Seq::<RlpTree>::empty());
    while pos < end
        invariant
            start <= pos <= end <= bytes@.len(),
            decode_list(bytes@.subrange(start as int, end as int)) == match decode_list(
                bytes@.subrange(pos as int, end as int),
            ) {
                Ok(rest) => Ok::<Seq<RlpTree>, RlpError>(item_trees(items@) + rest),
                Err(e) => Err(e),
            },
        decreases end - pos,
    {
        let ghost p = bytes@.subrange(pos as int, end as int);
        proof {
            lemma_decode_consumed(p);
        }
        let (item, consumed) = decode_item_at(bytes, pos, end)?;
        proof {
            assert(p.subrange(consumed as int, p.len() as int) =~= bytes@.subrange(
                (pos + consumed) as int,
                end as int,
            ));
            assert(item_trees(items@.push(item)) =~= item_trees(items@).push(item.tree())) by {
                assert(items@.push(item).drop_last() =~= items@);
            }
            match decode_list(bytes@.subrange((pos + consumed) as int, end as int)) {
                Ok(rest) => {
                    assert(item_trees(items@) + (seq![item.tree()] + rest) =~= item_trees(
                        items@,
                    ).push(item.tree()) + rest);
                },
                Err(e) => {},
            }
        }
        items.push(item);
        pos = pos + consumed;
    }
    assert(bytes@.subrange(pos as int, end as int) =~= Seq::<u8>::empty());
    assert(item_trees(items@) + Seq::<RlpTree>::empty() =~= item_trees(items@));
    Ok(items)
}

/// Decode exactly one item; trailing bytes give `TrailingBytes`.
pub fn decode(bytes: &[u8]) -> (r: Result<RlpItem, RlpError>)
    ensures
        match r {
            Ok(it) => spec_decode(bytes@) == Ok::<RlpTree, RlpError>(it.tree()),
            Err(e) => spec_decode(bytes@) == Err::<RlpTree, RlpError>(e),
        },
{
    assert(bytes@.subrange(0, bytes@.len() as int) =~= bytes@);
    let (item, consumed) = decode_item_at(bytes, 0, bytes.len())?;
    if consumed != bytes.len() {
        return Err(RlpError::TrailingBytes);
    }
    Ok(item)
}


// ---------------------------------------------------------------------------
// Public laws
// ---------------------------------------------------------------------------

/// Round trip: decoding the encoding of any value gives that value back
/// (for every value whose encoding fits in memory).
pub proof fn law_decode_encode_roundtrip(t: RlpTree)
    requires
        encode_tree(t).len() <= usize::MAX,
    ensures
        spec_decode(encode_tree(t)) == Ok::<RlpTree, RlpError>(t),
{
    lemma_decode_encoded(t, Seq::empty());
    assert(encode_tree(t) + Seq::<u8>::empty() =~= encode_tree(t));
}

/// No malleability: every byte string the decoder accepts is exactly the
/// canonical encoding of the value it returns.
pub proof fn law_decode_is_canonical(b: Seq<u8>)
    ensures
        spec_decode(b) matches Ok(t) ==> encode_tree(t) == b,
{
    lemma_decode_canonical(b);
    assert(b.subrange(0, b.len() as int) =~= b);
}

/// Distinct values have distinct encodings.
pub proof fn law_encode_injective(t1: RlpTree, t2: RlpTree)
    requires
        encode_tree(t1).len() <= usize::MAX,
        encode_tree(t1) == encode_tree(t2),
    ensures
        t1 == t2,
{
    law_decode_encode_roundtrip(t1);
    law_decode_encode_roundtrip(t2);
}

} // verus!

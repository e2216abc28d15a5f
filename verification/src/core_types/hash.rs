//! Hash primitives: SHA-256, SHA3-256 and Keccak-256 digests, and the
//! length-framed field hash that commitments and identifiers are built on.
use vstd::prelude::*;
use vstd::string::StringSliceAdditionalSpecFns;

verus! {

/// The SHA-256 digest of `data`, as the `sha2` crate computes it.
pub uninterp spec fn spec_sha256(data: Seq<u8>) -> Seq<u8>;

/// SHA-256 of `data` (`sha2::Sha256::digest`): the contract names the digest
/// and says nothing more of it.
#[verifier::external_body]
pub(crate) fn sha256(data: &[u8]) -> (r: [u8; 32])
    ensures
        r@ == spec_sha256(data@),
{
    <sha2::Sha256 as sha2::Digest>::digest(data).into()
}

/// The SHA3-256 digest of `data`, as the `sha3` crate computes it.
pub uninterp spec fn spec_sha3_256(data: Seq<u8>) -> Seq<u8>;

/// SHA3-256 of `data` (`sha3::Sha3_256::digest`): the contract names the
/// digest and says nothing more of it.
#[verifier::external_body]
pub(crate) fn sha3_256(data: &[u8]) -> (r: [u8; 32])
    ensures
        r@ == spec_sha3_256(data@),
{
    <sha3::Sha3_256 as sha3::Digest>::digest(data).into()
}

/// The Keccak-256 digest of `data`, as the `sha3` crate computes it.
pub uninterp spec fn spec_keccak256(data: Seq<u8>) -> Seq<u8>;

/// Keccak-256 of `data` (`sha3::Keccak256::digest`): the contract names the
/// digest and says nothing more of it.
#[verifier::external_body]
pub(crate) fn keccak256(data: &[u8]) -> (r: [u8; 32])
    ensures
        r@ == spec_keccak256(data@),
{
    <sha3::Keccak256 as sha3::Digest>::digest(data).into()
}

/// The `k` low bytes of `n`, least significant first.
pub open spec fn le_bytes(n: nat, k: nat) -> Seq<u8>
    decreases k,
{
    if k == 0 {
        Seq::empty()
    } else {
        seq![(n % 256) as u8] + le_bytes(n / 256, (k - 1) as nat)
    }
}

/// The bytes of a UTF-8 string literal.
pub open spec fn str_bytes(s: &str) -> Seq<u8> {
    s.spec_bytes()
}

/// Each field framed by its 8-byte little-endian length, concatenated.
pub open spec fn frame_fields(fields: Seq<Seq<u8>>) -> Seq<u8>
    decreases fields.len(),
{
    if fields.len() == 0 {
        Seq::empty()
    } else {
        frame_fields(fields.drop_last()) + le_bytes(fields.last().len(), 8) + fields.last()
    }
}

/// The digest that identifies a tuple of byte fields.
pub open spec fn spec_hash_fields(fields: Seq<Seq<u8>>) -> Seq<u8> {
    spec_sha256(frame_fields(fields))
}

/// The views of a slice of byte slices.
pub open spec fn field_views(fields: Seq<&[u8]>) -> Seq<Seq<u8>> {
    fields.map_values(|f: &[u8]| f@)
}

/// Little-endian bytes of a `u64`.
pub fn u64_le_bytes(n: u64) -> (r: Vec<u8>)
    ensures
        r@ == le_bytes(n as nat, 8),
{
    let mut out: Vec<u8> = Vec::new();
    let mut v: u64 = n;
    let mut i: usize = 0;
    while i < 8
        invariant
            0 <= i <= 8,
            out@ + le_bytes(v as nat, (8 - i) as nat) == le_bytes(n as nat, 8),
        decreases 8 - i,
    {
        let ghost before = v;
        out.push((v % 256) as u8);
        v = v / 256;
        i = i + 1;
        assert(le_bytes(before as nat, (8 - i + 1) as nat) == seq![(before % 256) as u8] + le_bytes(
            v as nat,
            (8 - i) as nat,
        ));
        assert(out@ + le_bytes(v as nat, (8 - i) as nat) =~= le_bytes(n as nat, 8));
    }
    assert(le_bytes(v as nat, 0) =~= Seq::<u8>::empty());
    assert(out@ =~= le_bytes(n as nat, 8));
    out
}

/// Little-endian bytes of a `u128`.
pub fn u128_le_bytes(n: u128) -> (r: Vec<u8>)
    ensures
        r@ == le_bytes(n as nat, 16),
{
    let mut out: Vec<u8> = Vec::new();
    let mut v: u128 = n;
    let mut i: usize = 0;
    while i < 16
        invariant
            0 <= i <= 16,
            out@ + le_bytes(v as nat, (16 - i) as nat) == le_bytes(n as nat, 16),
        decreases 16 - i,
    {
        let ghost before = v;
        out.push((v % 256) as u8);
        v = v / 256;
        i = i + 1;
        assert(le_bytes(before as nat, (16 - i + 1) as nat) == seq![(before % 256) as u8] + le_bytes(
            v as nat,
            (16 - i) as nat,
        ));
        assert(out@ + le_bytes(v as nat, (16 - i) as nat) =~= le_bytes(n as nat, 16));
    }
    assert(le_bytes(v as nat, 0) =~= Seq::<u8>::empty());
    assert(out@ =~= le_bytes(n as nat, 16));
    out
}

/// The number whose little-endian bytes are `s`.
pub open spec fn le_value(s: Seq<u8>) -> nat
    decreases s.len(),
{
    if s.len() == 0 {
        0
    } else {
        (s[0] + 256 * le_value(s.drop_first())) as nat
    }
}

/// The `u64` whose little-endian bytes are the 8 bytes of `b`.
pub fn u64_from_le(b: &[u8]) -> (r: u64)
    requires
        b@.len() == 8,
    ensures
        r == le_value(b@),
{
    let ghost s = b@;
    proof {
        reveal_with_fuel(le_value, 9);
        assert(s.drop_first().drop_first().drop_first().drop_first().drop_first().drop_first().drop_first().drop_first()
            =~= Seq::<u8>::empty());
    }
    let b0: u64 = b[0] as u64;
    let b1: u64 = b[1] as u64;
    let b2: u64 = b[2] as u64;
    let b3: u64 = b[3] as u64;
    let b4: u64 = b[4] as u64;
    let b5: u64 = b[5] as u64;
    let b6: u64 = b[6] as u64;
    let b7: u64 = b[7] as u64;
    b0 + 256 * (b1 + 256 * (b2 + 256 * (b3 + 256 * (b4 + 256 * (b5 + 256 * (b6 + 256 * b7))))))
}

/// Little-endian bytes of a `u32`, as four bytes.
pub fn u32_le_bytes(n: u32) -> (r: Vec<u8>)
    ensures
        r@ == le_bytes(n as nat, 4),
{
    let mut out: Vec<u8> = Vec::new();
    let mut v: u32 = n;
    let mut i: usize = 0;
    while i < 4
        invariant
            0 <= i <= 4,
            out@ + le_bytes(v as nat, (4 - i) as nat) == le_bytes(n as nat, 4),
        decreases 4 - i,
    {
        let ghost before = v;
        out.push((v % 256) as u8);
        v = v / 256;
        i = i + 1;
        assert(le_bytes(before as nat, (4 - i + 1) as nat) == seq![(before % 256) as u8] + le_bytes(
            v as nat,
            (4 - i) as nat,
        ));
        assert(out@ + le_bytes(v as nat, (4 - i) as nat) =~= le_bytes(n as nat, 4));
    }
    assert(le_bytes(v as nat, 0) =~= Seq::<u8>::empty());
    assert(out@ =~= le_bytes(n as nat, 4));
    out
}

/// Append `b` to `out`.
pub fn extend_bytes(out: &mut Vec<u8>, b: &[u8])
    ensures
        final(out)@ == old(out)@ + b@,
{
    let ghost init = out@;
    let mut i: usize = 0;
    while i < b.len()
        invariant
            0 <= i <= b@.len(),
            out@ == init + b@.subrange(0, i as int),
        decreases b@.len() - i,
    {
        out.push(b[i]);
        i = i + 1;
        assert(out@ =~= init + b@.subrange(0, i as int));
    }
    assert(b@.subrange(0, b@.len() as int) =~= b@);
}

/// Length-framed encoding of the fields (what `hash_fields_bytes` digests).
pub fn frame_fields_bytes(fields: &[&[u8]]) -> (r: Vec<u8>)
    ensures
        r@ == frame_fields(field_views(fields@)),
{
    let mut out: Vec<u8> = Vec::new();
    let mut i: usize = 0;
    assert(field_views(fields@).subrange(0, 0) =~= Seq::<Seq<u8>>::empty());
    while i < fields.len()
        invariant
            0 <= i <= fields@.len(),
            out@ == frame_fields(field_views(fields@).subrange(0, i as int)),
        decreases fields@.len() - i,
    {
        let f: &[u8] = fields[i];
        let len_bytes = u64_le_bytes(f.len() as u64);
        extend_bytes(&mut out, len_bytes.as_slice());
        extend_bytes(&mut out, f);
        proof {
            let fv = field_views(fields@);
            assert(fv.subrange(0, i + 1).drop_last() =~= fv.subrange(0, i as int));
            assert(fv.subrange(0, i + 1).last() == f@);
        }
        i = i + 1;
    }
    assert(field_views(fields@).subrange(0, fields@.len() as int) =~= field_views(fields@));
    out
}

/// SHA-256 of the length-framed fields. Field framing makes the digest depend
/// on field boundaries, not only on the concatenated bytes.
pub fn hash_fields_bytes(fields: &[&[u8]]) -> (r: [u8; 32])
    ensures
        r@ == spec_hash_fields(field_views(fields@)),
{
    let framed = frame_fields_bytes(fields);
    sha256(framed.as_slice())
}

/// `256` to the power `k`: the numbers that fit in `k` bytes are below it.
pub open spec fn byte_bound(k: nat) -> nat
    decreases k,
{
    if k == 0 {
        1
    } else {
        256 * byte_bound((k - 1) as nat)
    }
}

pub proof fn lemma_byte_bounds()
    ensures
        byte_bound(4) == 0x1_0000_0000,
        byte_bound(8) == 0x1_0000_0000_0000_0000,
        byte_bound(16) == 0x1_0000_0000_0000_0000_0000_0000_0000_0000,
{
    reveal_with_fuel(byte_bound, 17);
}

/// `k` little-endian bytes of a number below `256^k` read back as it.
pub proof fn lemma_le_bytes_value(n: nat, k: nat)
    requires
        n < byte_bound(k),
    ensures
        le_bytes(n, k).len() == k,
        le_value(le_bytes(n, k)) == n,
    decreases k,
{
    if k > 0 {
        let q = n / 256;
        assert(q < byte_bound((k - 1) as nat)) by (nonlinear_arith)
            requires
                n < 256 * byte_bound((k - 1) as nat),
                q == n / 256,
        ;
        lemma_le_bytes_value(q, (k - 1) as nat);
        let b = le_bytes(n, k);
        assert(b.drop_first() =~= le_bytes(q, (k - 1) as nat));
        assert(n == (n % 256) + 256 * q) by (nonlinear_arith)
            requires
                q == n / 256,
        ;
    }
}

/// Equal `k`-byte encodings of numbers that fit are of equal numbers.
pub proof fn lemma_le_bytes_injective(a: nat, b: nat, k: nat)
    requires
        a < byte_bound(k),
        b < byte_bound(k),
        le_bytes(a, k) == le_bytes(b, k),
    ensures
        a == b,
{
    lemma_le_bytes_value(a, k);
    lemma_le_bytes_value(b, k);
}

/// The framing read from the front: the first field's length, the field,
/// then the rest framed.
pub proof fn lemma_frame_front(f: Seq<Seq<u8>>)
    requires
        f.len() > 0,
    ensures
        frame_fields(f) == le_bytes(f[0].len(), 8) + f[0] + frame_fields(f.drop_first()),
    decreases f.len(),
{
    if f.len() == 1 {
        assert(f.drop_last() =~= Seq::<Seq<u8>>::empty());
        assert(f.drop_first() =~= Seq::<Seq<u8>>::empty());
        assert(frame_fields(f) =~= le_bytes(f[0].len(), 8) + f[0] + frame_fields(f.drop_first()));
    } else {
        let d = f.drop_last();
        lemma_frame_front(d);
        assert(d[0] == f[0]);
        assert(d.drop_first() =~= f.drop_first().drop_last());
        assert(f.drop_first().last() == f.last());
        assert(frame_fields(f) =~= le_bytes(f[0].len(), 8) + f[0] + frame_fields(f.drop_first()));
    }
}

/// Every field fits the 8-byte length prefix.
pub open spec fn fields_fit(f: Seq<Seq<u8>>) -> bool {
    forall|i: int| 0 <= i < f.len() ==> #[trigger] f[i].len() < byte_bound(8)
}

/// The framing is injective: equal framed bytes come from equal fields.
pub proof fn lemma_frame_injective(f: Seq<Seq<u8>>, g: Seq<Seq<u8>>)
    requires
        fields_fit(f),
        fields_fit(g),
        frame_fields(f) == frame_fields(g),
    ensures
        f == g,
    decreases f.len(),
{
    if f.len() == 0 {
        if g.len() > 0 {
            lemma_frame_front(g);
            lemma_le_bytes_value(g[0].len(), 8);
        }
        assert(f =~= g);
    } else {
        lemma_frame_front(f);
        lemma_le_bytes_value(f[0].len(), 8);
        if g.len() == 0 {
            assert(frame_fields(g).len() == 0);
        }
        lemma_frame_front(g);
        lemma_le_bytes_value(g[0].len(), 8);
        let x = frame_fields(f);
        let lf = le_bytes(f[0].len(), 8);
        let lg = le_bytes(g[0].len(), 8);
        assert(x.subrange(0, 8) =~= lf);
        assert(x.subrange(0, 8) =~= lg);
        lemma_le_bytes_injective(f[0].len(), g[0].len(), 8);
        let n = f[0].len() as int;
        assert(x.subrange(8, 8 + n) =~= f[0]);
        assert(x.subrange(8, 8 + n) =~= g[0]);
        assert(x.subrange(8 + n, x.len() as int) =~= frame_fields(f.drop_first()));
        assert(x.subrange(8 + n, x.len() as int) =~= frame_fields(g.drop_first()));
        assert(fields_fit(f.drop_first())) by {
            assert forall|i: int| 0 <= i < f.drop_first().len() implies #[trigger] f.drop_first()[i].len() < byte_bound(8) by {
                assert(f.drop_first()[i] == f[i + 1]);
            }
        }
        assert(fields_fit(g.drop_first())) by {
            assert forall|i: int| 0 <= i < g.drop_first().len() implies #[trigger] g.drop_first()[i].len() < byte_bound(8) by {
                assert(g.drop_first()[i] == g[i + 1]);
            }
        }
        lemma_frame_injective(f.drop_first(), g.drop_first());
        assert(f =~= g) by {
            assert(f.len() == g.len());
            assert forall|i: int| 0 <= i < f.len() implies f[i] == g[i] by {
                if i > 0 {
                    assert(f[i] == f.drop_first()[i - 1]);
                    assert(g[i] == g.drop_first()[i - 1]);
                }
            }
        }
    }
}

} // verus!
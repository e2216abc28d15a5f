//! Binary Merkle commitment over 32-byte leaves.
//!
//! Each level pairs neighbours and hashes `left || right` with SHA-256; an odd
//! last node is carried up unchanged. The root of no leaves is 32 zero bytes.
use vstd::prelude::*;
use crate::core_types::hash::{sha256, spec_sha256, extend_bytes};

verus! {

pub open spec fn zero32() -> Seq<u8> {
    Seq::new(32, |i: int| 0u8)
}

/// One level up: pairwise parents, the odd last node carried over.
pub open spec fn merkle_level(s: Seq<Seq<u8>>) -> Seq<Seq<u8>> {
    Seq::new(
        ((s.len() + 1) / 2) as nat,
        |i: int|
            if 2 * i + 1 < s.len() {
                spec_sha256(s[2 * i] + s[2 * i + 1])
            } else {
                s[2 * i]
            },
    )
}

/// The Merkle root of a sequence of leaves.
pub open spec fn merkle_root(s: Seq<Seq<u8>>) -> Seq<u8>
    decreases s.len(),
{
    if s.len() == 0 {
        zero32()
    } else if s.len() == 1 {
        s[0]
    } else {
        merkle_root(merkle_level(s))
    }
}

pub open spec fn leaf_views(s: Seq<[u8; 32]>) -> Seq<Seq<u8>> {
    s.map_values(|x: [u8; 32]| x@)
}

/// Hash of two 32-byte nodes.
pub fn hash_pair(a: &[u8; 32], b: &[u8; 32]) -> (r: [u8; 32])
    ensures
        r@ == spec_sha256(a@ + b@),
{
    let mut buf: Vec<u8> = Vec::new();
    extend_bytes(&mut buf, a);
    extend_bytes(&mut buf, b);
    assert(buf@ =~= a@ + b@);
    sha256(buf.as_slice())
}

fn next_level(s: &Vec<[u8; 32]>) -> (r: Vec<[u8; 32]>)
    ensures
        leaf_views(r@) == merkle_level(leaf_views(s@)),
{
    let mut out: Vec<[u8; 32]> = Vec::new();
    let mut i: usize = 0;
    let n: usize = s.len();
    while i < n
        invariant
            n == s@.len(),
            i <= n,
            i % 2 == 0 || i == n,
            out@.len() == (i + 1) / 2,
            forall|j: int|
                0 <= j < out@.len() ==> #[trigger] out@[j]@ == merkle_level(leaf_views(s@))[j],
        decreases n - i,
    {
        let ghost lv = leaf_views(s@);
        if i + 1 < n {
            let h = hash_pair(&s[i], &s[i + 1]);
            assert(lv[i as int] == s@[i as int]@ && lv[i + 1] == s@[i + 1]@);
            out.push(h);
            i = i + 2;
        } else {
            assert(lv[i as int] == s@[i as int]@);
            out.push(s[i]);
            i = n;
        }
    }
    assert(leaf_views(out@) =~= merkle_level(leaf_views(s@)));
    out
}

/// The Merkle root of `leaves`.
pub fn merkle_root_of(leaves: Vec<[u8; 32]>) -> (r: [u8; 32])
    ensures
        r@ == merkle_root(leaf_views(leaves@)),
{
    if leaves.len() == 0 {
        let z = [0u8; 32];
        assert(z@ =~= zero32());
        return z;
    }
    let ghost all = leaves@;
    let mut level: Vec<[u8; 32]> = leaves;
    while level.len() > 1
        invariant
            level@.len() >= 1,
            merkle_root(leaf_views(level@)) == merkle_root(leaf_views(all)),
        decreases level@.len(),
    {
        let next = next_level(&level);
        assert(leaf_views(level@).len() == level@.len());
        assert(leaf_views(next@).len() == next@.len());
        level = next;
    }
    assert(leaf_views(level@).len() == 1);
    assert(leaf_views(level@)[0] == level@[0]@);
    level[0]
}

} // verus!

//! The integrity audit of a stored chain: each height's block must hash to
//! its stored hash and link to the block below it.
use vstd::prelude::*;
use crate::chain::genesis::zero_hash;
use crate::core_types::block::{Block, spec_block_hash, zero_hash_text};
use crate::core_types::error::{decimal, spec_decimal};

verus! {

/// What reading the block indexed at a height gave.
#[derive(Debug)]
pub enum BlockLookup {
    Found(Block),
    Missing,
    ReadError(String),
}

pub open spec fn hash_mismatch_msg(i: nat, stored: Seq<char>, calc: Seq<char>) -> Seq<char> {
    "Block "@ + spec_decimal(i) + ": hash mismatch (stored: "@ + stored + ", calc: "@ + calc + ")"@
}

pub open spec fn linkage_msg(i: nat, expected: Seq<char>, got: Seq<char>) -> Seq<char> {
    "Block "@ + spec_decimal(i) + ": linkage error (expected prev: "@ + expected + ", got: "@ + got + ")"@
}

pub open spec fn missing_msg(i: nat) -> Seq<char> {
    "Block "@ + spec_decimal(i) + ": missing in index"@
}

pub open spec fn read_error_msg(i: nat, e: Seq<char>) -> Seq<char> {
    "Block "@ + spec_decimal(i) + ": read error: "@ + e
}

/// The findings of the audit of heights `0..ls.len()`, and the hash the next
/// height must link to (that of the last block found; the zero hash before
/// any).
pub open spec fn audit(ls: Seq<BlockLookup>) -> (Seq<Seq<char>>, Seq<char>)
    decreases ls.len(),
{
    if ls.len() == 0 {
        (Seq::empty(), zero_hash_text())
    } else {
        let (errs, prev) = audit(ls.drop_last());
        let i = (ls.len() - 1) as nat;
        match ls.last() {
            BlockLookup::Found(b) => {
                let e1 = if b.hash@ != spec_block_hash(b) {
                    seq![hash_mismatch_msg(i, b.hash@, spec_block_hash(b))]
                } else {
                    Seq::empty()
                };
                let e2 = if i > 0 && b.previous_hash@ != prev {
                    seq![linkage_msg(i, prev, b.previous_hash@)]
                } else {
                    Seq::empty()
                };
                (errs + e1 + e2, b.hash@)
            },
            BlockLookup::Missing => (errs.push(missing_msg(i)), prev),
            BlockLookup::ReadError(e) => (errs.push(read_error_msg(i, e@)), prev),
        }
    }
}

pub open spec fn texts(v: Seq<String>) -> Seq<Seq<char>> {
    v.map_values(|s: String| s@)
}

fn push_text(v: &mut Vec<String>, s: String)
    ensures
        texts(final(v)@) == texts(old(v)@).push(s@),
{
    let ghost before = v@;
    let ghost t = s@;
    v.push(s);
    assert(texts(v@) =~= texts(before).push(t));
}

fn block_prefix(i: u64) -> (s: String)
    ensures
        s@ == "Block "@ + spec_decimal(i as nat),
{
    let mut s: String = "Block ".to_owned();
    s.append(decimal(i).as_str());
    s
}

/// Audit the blocks read at heights `0, 1, ...`: a block whose stored hash is
/// not its computed hash, a block above genesis that does not link to the
/// last block found below it, a height with no block and a failed read are
/// each reported, in height order.
pub fn audit_chain(lookups: &Vec<BlockLookup>) -> (errors: Vec<String>)
    ensures
        texts(errors@) == audit(lookups@).0,
{
    let mut errors: Vec<String> = Vec::new();
    let mut prev: String = zero_hash();
    let mut i: usize = 0;
    assert(lookups@.subrange(0, 0) =~= Seq::<BlockLookup>::empty());
    assert(texts(errors@) =~= Seq::<Seq<char>>::empty());
    while i < lookups.len()
        invariant
            0 <= i <= lookups@.len(),
            texts(errors@) == audit(lookups@.subrange(0, i as int)).0,
            prev@ == audit(lookups@.subrange(0, i as int)).1,
        decreases lookups@.len() - i,
    {
        let ghost pre = lookups@.subrange(0, i as int);
        let ghost cur = lookups@.subrange(0, i + 1);
        proof {
            assert(cur.drop_last() =~= pre);
            assert(cur.last() == lookups@[i as int]);
        }
        let idx: u64 = i as u64;
        match &lookups[i] {
            BlockLookup::Found(b) => {
                let calc = b.calculate_hash();
                let ghost e0 = texts(errors@);
                if b.hash != calc {
                    let mut m = block_prefix(idx);
                    m.append(": hash mismatch (stored: ");
                    m.append(b.hash.as_str());
                    m.append(", calc: ");
                    m.append(calc.as_str());
                    m.append(")");
                    push_text(&mut errors, m);
                }
                let ghost e1 = texts(errors@);
                if i > 0 && b.previous_hash != prev {
                    let mut m = block_prefix(idx);
                    m.append(": linkage error (expected prev: ");
                    m.append(prev.as_str());
                    m.append(", got: ");
                    m.append(b.previous_hash.as_str());
                    m.append(")");
                    push_text(&mut errors, m);
                }
                proof {
                    let e1s = if b.hash@ != spec_block_hash(*b) {
                        seq![hash_mismatch_msg(i as nat, b.hash@, spec_block_hash(*b))]
                    } else {
                        Seq::empty()
                    };
                    assert(e1 =~= e0 + e1s);
                }
                prev = b.hash.clone();
            },
            BlockLookup::Missing => {
                let mut m = block_prefix(idx);
                m.append(": missing in index");
                push_text(&mut errors, m);
            },
            BlockLookup::ReadError(e) => {
                let mut m = block_prefix(idx);
                m.append(": read error: ");
                m.append(e.as_str());
                push_text(&mut errors, m);
            },
        }
        assert(texts(errors@) =~= audit(cur).0);
        i = i + 1;
    }
    assert(lookups@.subrange(0, lookups@.len() as int) =~= lookups@);
    errors
}

/// A block was found and its stored hash is its computed hash.
pub open spec fn sound_at(l: BlockLookup) -> bool {
    match l {
        BlockLookup::Found(b) => b.hash@ == spec_block_hash(b),
        _ => false,
    }
}

/// Both blocks were found and the first names the second as its parent.
pub open spec fn links_to(l: BlockLookup, below: BlockLookup) -> bool {
    match (l, below) {
        (BlockLookup::Found(b), BlockLookup::Found(a)) => b.previous_hash@ == a.hash@,
        _ => false,
    }
}

/// A stored chain is intact when every height holds a block whose stored hash
/// is its computed hash, each above genesis linking to the block below.
pub open spec fn chain_intact(ls: Seq<BlockLookup>) -> bool
    decreases ls.len(),
{
    if ls.len() == 0 {
        true
    } else {
        &&& chain_intact(ls.drop_last())
        &&& sound_at(ls.last())
        &&& ls.len() > 1 ==> links_to(ls.last(), ls[ls.len() - 2])
    }
}

/// The audit finds nothing exactly when the chain is intact; the hash it
/// carries forward is that of the last block.
pub proof fn law_audit_clean_iff_intact(ls: Seq<BlockLookup>)
    ensures
        audit(ls).0.len() == 0 <==> chain_intact(ls),
        ls.len() > 0 && chain_intact(ls) ==> (ls.last() matches BlockLookup::Found(b) && audit(ls).1 == b.hash@),
    decreases ls.len(),
{
    if ls.len() > 0 {
        let pre = ls.drop_last();
        law_audit_clean_iff_intact(pre);
        if ls.len() > 1 {
            assert(pre.last() == ls[ls.len() - 2]);
        }
    }
}

} // verus!

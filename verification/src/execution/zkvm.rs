//! BudZKVM contract bytecode: the checks and decoding done before the VM runs.
//!
//! A program is a sequence of 64-bit instruction words, each encoded as 8
//! little-endian bytes. Running it (and proving the run) is the VM's work.
use vstd::prelude::*;
use crate::core_types::hash::{le_value, u64_from_le, le_bytes, u64_le_bytes, extend_bytes, keccak256, spec_keccak256};

verus! {

/// Gas granted to a contract call.
pub const DEFAULT_CONTRACT_GAS_LIMIT: u64 = 1_000_000;

/// What a successful VM run reports.
#[derive(Debug, Clone, PartialEq, Eq)]
pub struct ZkVmReceipt {
    pub gas_used: u64,
    pub steps: usize,
    pub events: Vec<u64>,
    pub proof_bytes: usize,
}

pub struct ZkVmExecutor;

/// Why bytecode is refused before it reaches the VM, if it is.
pub open spec fn bytecode_error(b: Seq<u8>) -> Option<Seq<char>> {
    if b.len() == 0 {
        Some("Empty BudZKVM bytecode"@)
    } else if b.len() % 8 != 0 {
        Some("BudZKVM bytecode length must be a multiple of 8 bytes"@)
    } else {
        None
    }
}

/// The instruction words of bytecode whose length is a multiple of 8.
pub open spec fn spec_program(b: Seq<u8>) -> Seq<u64> {
    Seq::new(b.len() / 8, |i: int| le_value(b.subrange(8 * i, 8 * i + 8)) as u64)
}

/// Split bytecode into little-endian instruction words.
pub fn decode_program(bytecode: &[u8]) -> (r: Result<Vec<u64>, String>)
    requires
        bytecode@.len() % 8 == 0,
    ensures
        r matches Ok(p) && p@ == spec_program(bytecode@),
{
    let len: usize = bytecode.len();
    let n: usize = len / 8;
    let mut out: Vec<u64> = Vec::new();
    let mut i: usize = 0;
    while i < n
        invariant
            0 <= i <= n,
            len == bytecode@.len(),
            n == bytecode@.len() / 8,
            bytecode@.len() % 8 == 0,
            out@ == spec_program(bytecode@).subrange(0, i as int),
        decreases n - i,
    {
        let mut word: Vec<u8> = Vec::new();
        let mut k: usize = 0;
        while k < 8
            invariant
                0 <= k <= 8,
                i < n,
                len == bytecode@.len(),
                n == bytecode@.len() / 8,
                bytecode@.len() % 8 == 0,
                word@ == bytecode@.subrange(8 * i as int, 8 * i + k),
            decreases 8 - k,
        {
            word.push(bytecode[8 * i + k]);
            k = k + 1;
            assert(word@ =~= bytecode@.subrange(8 * i as int, 8 * i + k));
        }
        let w: u64 = u64_from_le(word.as_slice());
        out.push(w);
        i = i + 1;
        assert(out@ =~= spec_program(bytecode@).subrange(0, i as int));
    }
    assert(out@ =~= spec_program(bytecode@));
    Ok(out)
}

impl ZkVmExecutor {
    /// The checks and decoding that precede a VM run: empty bytecode and a
    /// length that is not a multiple of 8 are refused.
    pub fn load_program(bytecode: &[u8]) -> (r: Result<Vec<u64>, String>)
        ensures
            match bytecode_error(bytecode@) {
                Some(e) => r matches Err(m) && m@ == e,
                None => r matches Ok(p) && p@ == spec_program(bytecode@),
            },
    {
        if bytecode.len() == 0 {
            return Err("Empty BudZKVM bytecode".to_owned());
        }
        if bytecode.len() % 8 != 0 {
            return Err("BudZKVM bytecode length must be a multiple of 8 bytes".to_owned());
        }
        decode_program(bytecode)
    }
}

/// The little-endian bytes of each word, concatenated.
pub open spec fn words_le_bytes(words: Seq<u64>) -> Seq<u8>
    decreases words.len(),
{
    if words.len() == 0 {
        Seq::empty()
    } else {
        words_le_bytes(words.drop_last()) + le_bytes(words.last() as nat, 8)
    }
}

/// Keccak-256 over the words' little-endian bytes, fed in order (the digest
/// a program and its event log are committed by).
pub fn hash_u64_words(words: &[u64]) -> (r: [u8; 32])
    ensures
        r@ == spec_keccak256(words_le_bytes(words@)),
{
    let mut data: Vec<u8> = Vec::new();
    let mut i: usize = 0;
    assert(words@.subrange(0, 0) =~= Seq::<u64>::empty());
    while i < words.len()
        invariant
            0 <= i <= words@.len(),
            data@ == words_le_bytes(words@.subrange(0, i as int)),
        decreases words@.len() - i,
    {
        let b = u64_le_bytes(words[i]);
        extend_bytes(&mut data, b.as_slice());
        proof {
            let s1 = words@.subrange(0, i + 1);
            assert(s1.drop_last() =~= words@.subrange(0, i as int));
            assert(s1.last() == words@[i as int]);
        }
        i = i + 1;
    }
    assert(words@.subrange(0, words@.len() as int) =~= words@);
    keccak256(data.as_slice())
}

} // verus!

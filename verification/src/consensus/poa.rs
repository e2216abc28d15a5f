//! Proof-of-authority scheduling: the active validators take turns proposing,
//! in an order whose starting point is a hash mix of the validator set, and
//! the producer a block is prepared for follows from that turn.
use vstd::prelude::*;
use vstd::string::StringSliceAdditionalSpecFns;
use crate::consensus::pow::{ConsensusError, links_to_tip};
use crate::core_types::address::{Address, bytes32_eq};
use crate::core_types::block::{Block, spec_block_hash};
use crate::core_types::hex::{hex_encode, spec_hex_encode};
use crate::core_types::hash::{extend_bytes, le_value, sha3_256, spec_sha3_256, str_bytes, u64_from_le};

verus! {

/// The tag that opens the leader seed.
pub open spec fn leader_tag() -> Seq<u8> {
    str_bytes("BDLM_POA_LEADER_V1")
}

/// The validators' addresses, concatenated in order.
pub open spec fn addresses_bytes(s: Seq<Address>) -> Seq<u8>
    decreases s.len(),
{
    if s.len() == 0 {
        Seq::empty()
    } else {
        addresses_bytes(s.drop_last()) + s.last().0@
    }
}

/// The hash mix of the validator set: the first eight bytes (little-endian)
/// of the SHA3-256 of the tag followed by the addresses.
pub open spec fn leader_offset(active: Seq<Address>) -> nat {
    le_value(spec_sha3_256(leader_tag() + addresses_bytes(active)).subrange(0, 8))
}

/// The slot whose turn `block_index` is among `active` (non-empty): the
/// rotation position of the block shifted by the hash mix of the set.
pub open spec fn leader_slot(block_index: u64, active: Seq<Address>) -> int {
    let n = active.len() as int;
    let a = ((block_index as usize) % (active.len() as usize)) as int;
    let off = (leader_offset(active) % active.len()) as int;
    if a + off < n {
        a + off
    } else {
        a + off - n
    }
}

/// The validator whose turn `block_index` is, among a non-empty list.
pub open spec fn turn_of(block_index: u64, active: Seq<Address>) -> Address {
    active[leader_slot(block_index, active)]
}

/// The hash mix of a validator set (see `leader_offset`).
fn compute_leader_offset(active: &[Address]) -> (r: u64)
    ensures
        r == leader_offset(active@),
{
    let mut buf: Vec<u8> = Vec::new();
    let tag: &[u8] = "BDLM_POA_LEADER_V1".as_bytes();
    extend_bytes(&mut buf, tag);
    let mut i: usize = 0;
    assert(active@.subrange(0, 0) =~= Seq::<Address>::empty());
    while i < active.len()
        invariant
            0 <= i <= active@.len(),
            buf@ == leader_tag() + addresses_bytes(active@.subrange(0, i as int)),
        decreases active@.len() - i,
    {
        let b: &[u8] = active[i].as_bytes();
        extend_bytes(&mut buf, b);
        proof {
            let s = active@.subrange(0, i + 1);
            assert(s.drop_last() =~= active@.subrange(0, i as int));
        }
        i = i + 1;
    }
    assert(active@.subrange(0, active@.len() as int) =~= active@);
    let d = sha3_256(buf.as_slice());
    let mut head: Vec<u8> = Vec::new();
    let mut j: usize = 0;
    while j < 8
        invariant
            0 <= j <= 8,
            d@.len() == 32,
            head@ == d@.subrange(0, j as int),
        decreases 8 - j,
    {
        head.push(d[j]);
        j = j + 1;
        assert(head@ =~= d@.subrange(0, j as int));
    }
    u64_from_le(head.as_slice())
}

/// The validator whose turn `block_index` is; none when there are none. The
/// validators take turns in the given order, starting from a position fixed
/// by the hash mix of the set, so no two consecutive blocks have the same
/// proposer while there are two or more.
pub fn expected_proposer(block_index: u64, active_validators: &[Address]) -> (r: Option<Address>)
    ensures
        active_validators@.len() == 0 ==> r is None,
        active_validators@.len() > 0 ==> r == Some(turn_of(block_index, active_validators@)),
{
    let n: usize = active_validators.len();
    if n == 0 {
        return None;
    }
    let a: usize = (block_index as usize) % n;
    let h: u64 = compute_leader_offset(active_validators);
    let off: usize = (h % (n as u64)) as usize;
    let slot: usize = if a < n - off {
        a + off
    } else {
        a - (n - off)
    };
    Some(active_validators[slot])
}

pub open spec fn is_zero_address(a: Address) -> bool {
    a.0@ == Seq::new(32, |i: int| 0u8)
}

/// The producer decision before a PoA block is signed. With no validator for
/// the turn (above genesis) it fails. When the turn is the zero address, the
/// block is left as it is and nobody is to sign. When one of our keys (the
/// external signer's first, then the local key pair's) holds the turn, the
/// block is ours and the result names us. Otherwise a block with no
/// producer, or the zero producer, gets the expected proposer; the result is
/// the block's producer.
pub fn prepare_producer(
    block_index: u64,
    active_validators: &[Address],
    signer_address: Option<Address>,
    key_address: Option<Address>,
    producer: &mut Option<Address>,
) -> (r: Result<Option<Address>, ConsensusError>)
    ensures
        active_validators@.len() == 0 && block_index != 0 ==> r is Err && *final(producer) == *old(producer),
        active_validators@.len() == 0 && block_index == 0 ==> r == Ok::<Option<Address>, ConsensusError>(None)
            && *final(producer) == *old(producer),
        ({
            let e = turn_of(block_index, active_validators@);
            active_validators@.len() > 0 ==> {
                if is_zero_address(e) {
                    r == Ok::<Option<Address>, ConsensusError>(None) && *final(producer) == *old(producer)
                } else if signer_address is Some && signer_address.unwrap().0@ == e.0@ {
                    r == Ok::<Option<Address>, ConsensusError>(signer_address) && *final(producer) == signer_address
                } else if key_address is Some && key_address.unwrap().0@ == e.0@ {
                    r == Ok::<Option<Address>, ConsensusError>(key_address) && *final(producer) == key_address
                } else if *old(producer) is None || (*old(producer) is Some && is_zero_address(old(producer).unwrap())) {
                    r == Ok::<Option<Address>, ConsensusError>(Some(e)) && *final(producer) == Some(e)
                } else {
                    r == Ok::<Option<Address>, ConsensusError>(*old(producer)) && *final(producer) == *old(producer)
                }
            }
        }),
{
    let expected: Address = match expected_proposer(block_index, active_validators) {
        Some(a) => a,
        None => {
            if block_index == 0 {
                Address::zero()
            } else {
                return Err(ConsensusError("No active validators found".to_owned()));
            }
        },
    };
    if expected.is_zero() {
        return Ok(None);
    }
    if let Some(s) = signer_address {
        if bytes32_eq(&s.0, &expected.0) {
            *producer = Some(s);
            return Ok(Some(s));
        }
    }
    if let Some(k) = key_address {
        if bytes32_eq(&k.0, &expected.0) {
            *producer = Some(k);
            return Ok(Some(k));
        }
    }
    let unset = match producer {
        None => true,
        Some(p) => p.is_zero(),
    };
    if unset {
        *producer = Some(expected);
    }
    Ok(*producer)
}

/// What PoA validation answers for `block` on top of `chain`: `Ok` or the
/// refusal message. `signature_ok` says whether the block's signature verifies
/// for its producer. Genesis needs only a correct hash. Above genesis the block
/// must link to the tip; then, with active validators, it must name the
/// validator whose turn it is as producer and carry a valid signature; with
/// none, its hash must be correct.
pub open spec fn poa_verdict(block: Block, chain: Seq<Block>, active: Seq<Address>, signature_ok: bool) -> Result<(), Seq<char>> {
    if block.index == 0 {
        if block.hash@ == spec_block_hash(block) {
            Ok(())
        } else {
            Err("Invalid genesis block hash"@)
        }
    } else if !links_to_tip(block, chain) {
        Err("Previous hash mismatch. Expected: "@ + chain.last().hash@ + ", Got: "@ + block.previous_hash@)
    } else if active.len() > 0 {
        let e = turn_of(block.index, active);
        if block.producer is None {
            Err("Block has no producer"@)
        } else if block.producer.unwrap().0@ != e.0@ {
            Err("Wrong proposer. Expected: "@ + spec_hex_encode(e.0@) + ", Got: "@ + spec_hex_encode(block.producer.unwrap().0@))
        } else if !signature_ok {
            Err("Invalid block signature"@)
        } else {
            Ok(())
        }
    } else if block.hash@ == spec_block_hash(block) {
        Ok(())
    } else {
        Err("Invalid block hash"@)
    }
}

/// Validates a PoA block against the chain it extends and the active
/// validators, given whether its signature verifies for its producer.
pub fn validate_block(block: &Block, chain: &[Block], active_validators: &[Address], signature_ok: bool) -> (r: Result<(), ConsensusError>)
    ensures
        r is Ok <==> poa_verdict(*block, chain@, active_validators@, signature_ok) is Ok,
        r matches Err(e) ==> poa_verdict(*block, chain@, active_validators@, signature_ok) == Err::<(), Seq<char>>(e.0@),
{
    if block.index == 0 {
        let h = block.calculate_hash();
        if block.hash != h {
            return Err(ConsensusError("Invalid genesis block hash".to_owned()));
        }
        return Ok(());
    }
    if chain.len() > 0 {
        let prev_block = &chain[chain.len() - 1];
        if block.previous_hash != prev_block.hash {
            let mut msg: String = "Previous hash mismatch. Expected: ".to_owned();
            msg.append(prev_block.hash.as_str());
            msg.append(", Got: ");
            msg.append(block.previous_hash.as_str());
            return Err(ConsensusError(msg));
        }
    }
    match expected_proposer(block.index, active_validators) {
        Some(expected) => {
            let producer: Address = match block.producer {
                Some(p) => p,
                None => {
                    return Err(ConsensusError("Block has no producer".to_owned()));
                },
            };
            if !bytes32_eq(&producer.0, &expected.0) {
                let mut msg: String = "Wrong proposer. Expected: ".to_owned();
                msg.append(hex_encode(&expected.0).as_str());
                msg.append(", Got: ");
                msg.append(hex_encode(&producer.0).as_str());
                return Err(ConsensusError(msg));
            }
            if !signature_ok {
                return Err(ConsensusError("Invalid block signature".to_owned()));
            }
        },
        None => {
            let h = block.calculate_hash();
            if block.hash != h {
                return Err(ConsensusError("Invalid block hash".to_owned()));
            }
        },
    }
    Ok(())
}

/// Turns rotate: while there are two or more validators, consecutive blocks
/// have different proposers, and every turn falls on a listed validator.
pub proof fn law_consecutive_blocks_change_proposer(block_index: u64, active: Seq<Address>)
    requires
        active.len() >= 2,
        active.len() <= usize::MAX,
        block_index < usize::MAX,
    ensures
        0 <= leader_slot(block_index, active) < active.len(),
        leader_slot(block_index, active) != leader_slot((block_index + 1) as u64, active),
{
    let n = active.len() as int;
    let i = block_index as int;
    assert((block_index as usize) as int == i);
    assert(((block_index + 1) as u64 as usize) as int == i + 1);
    assert((active.len() as usize) as int == n);
    let a = i % n;
    let a1 = (i + 1) % n;
    assert(a1 == if a + 1 < n { a + 1 } else { 0 }) by {
        vstd::arithmetic::div_mod::lemma_fundamental_div_mod(i, n);
        let q = i / n;
        assert(i == n * q + a);
        assert(0 <= a < n);
        if a + 1 < n {
            assert(i + 1 == q * n + (a + 1)) by (nonlinear_arith)
                requires i == n * q + a;
            vstd::arithmetic::div_mod::lemma_fundamental_div_mod_converse(i + 1, n, q, a + 1);
        } else {
            assert(i + 1 == (q + 1) * n + 0) by (nonlinear_arith)
                requires i == n * q + a, a + 1 == n;
            vstd::arithmetic::div_mod::lemma_fundamental_div_mod_converse(i + 1, n, q + 1, 0);
        }
    }
}

} // verus!

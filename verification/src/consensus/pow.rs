//! Proof-of-work consensus: hash-prefix difficulty, mining and retargeting.
use vstd::prelude::*;
use vstd::string::StringSliceAdditionalSpecFns;
use vstd::utf8::encode_utf8;
use crate::core_types::account::{AccountState, sat_add_u128};
use crate::core_types::block::{Block, spec_block_hash, block_hash_fields};
use crate::core_types::error::{decimal, spec_decimal};

verus! {

#[derive(Debug, Clone, Copy, PartialEq, Eq, Structural)]
pub struct PoWConfig {
    /// Leading `'0'` characters a block hash needs.
    pub difficulty: usize,
    /// Seconds one block should take.
    pub target_block_time: u64,
    /// Blocks between difficulty adjustments.
    pub adjustment_interval: u64,
}

impl Default for PoWConfig {
    fn default() -> (c: Self)
        ensures
            c == (PoWConfig { difficulty: 2, target_block_time: 10, adjustment_interval: 100 }),
    {
        PoWConfig { difficulty: 2, target_block_time: 10, adjustment_interval: 100 }
    }
}

/// A consensus rule violation, with its message.
#[derive(Debug, Clone, PartialEq, Eq)]
pub struct ConsensusError(pub String);

pub struct PoWEngine {
    pub config: PoWConfig,
    current_difficulty: usize,
}

/// Whether `hash` starts with `d` `'0'` characters (as UTF-8 bytes).
pub open spec fn has_zero_prefix(hash: Seq<char>, d: nat) -> bool {
    let b = encode_utf8(hash);
    d <= b.len() && forall|i: int| 0 <= i < d ==> b[i] == 0x30u8
}

pub open spec fn clamp_usize(x: int, lo: int, hi: int) -> int {
    if x < lo {
        lo
    } else if x > hi {
        hi
    } else {
        x
    }
}

/// The timestamps used by a retarget: the last block and the block one
/// interval back.
pub open spec fn retarget_window(chain: Seq<Block>, interval: int) -> (u128, u128) {
    (chain[chain.len() - 1].timestamp, chain[chain.len() - interval].timestamp)
}

/// The scaled ratio of expected to actual interval time.
pub open spec fn retarget_ratio(cfg: PoWConfig, chain: Seq<Block>) -> int {
    let (last, first) = retarget_window(chain, cfg.adjustment_interval as int);
    let actual = (last - first) / 1000;
    let expected = cfg.target_block_time * cfg.adjustment_interval;
    (expected * 100) / (if actual >= 1 { actual } else { 1 })
}

/// The inputs of a retarget stay within the arithmetic the rule uses.
pub open spec fn retarget_fits(cfg: PoWConfig, difficulty: usize, chain: Seq<Block>) -> bool {
    chain.len() >= cfg.adjustment_interval ==> {
        &&& cfg.adjustment_interval > 0
        &&& retarget_window(chain, cfg.adjustment_interval as int).0 >= retarget_window(
            chain,
            cfg.adjustment_interval as int,
        ).1
        &&& cfg.target_block_time * cfg.adjustment_interval <= u64::MAX
        &&& difficulty * (retarget_ratio(cfg, chain) as usize) <= usize::MAX
    }
}

/// The difficulty after a retarget: unchanged until a full interval exists,
/// else scaled by expected/actual time over the last interval, clamped to
/// `1..=32`.
pub open spec fn spec_new_difficulty(cfg: PoWConfig, difficulty: usize, chain: Seq<Block>) -> usize {
    if chain.len() < cfg.adjustment_interval {
        difficulty
    } else {
        clamp_usize((difficulty * (retarget_ratio(cfg, chain) as usize)) / 100, 1, 32) as usize
    }
}

/// The block with another nonce.
pub open spec fn with_nonce(b: Block, n: u64) -> Block {
    Block { nonce: n, ..b }
}

/// Whether `block` links to the tip of `chain` (any block links to an empty
/// chain).
pub open spec fn links_to_tip(block: Block, chain: Seq<Block>) -> bool {
    chain.len() == 0 || block.previous_hash@ == chain.last().hash@
}

/// The difficulty a block at `index` is checked against: retargeted at a
/// positive multiple of the interval, else the current one.
pub open spec fn checked_difficulty(cfg: PoWConfig, difficulty: usize, index: u64, chain: Seq<Block>) -> usize {
    if index > 0 && cfg.adjustment_interval > 0 && index % cfg.adjustment_interval == 0 {
        spec_new_difficulty(cfg, difficulty, chain)
    } else {
        difficulty
    }
}

/// Whether validation accepts `block` on top of `chain`: genesis needs only
/// its own hash; any other block must link to the tip, carry its own hash,
/// and show the leading zeros of the difficulty it is checked against.
pub open spec fn pow_accepts(cfg: PoWConfig, difficulty: usize, block: Block, chain: Seq<Block>) -> bool {
    if block.index == 0 {
        block.hash@ == spec_block_hash(block)
    } else {
        &&& links_to_tip(block, chain)
        &&& block.hash@ == spec_block_hash(block)
        &&& has_zero_prefix(block.hash@, checked_difficulty(cfg, difficulty, block.index, chain) as nat)
    }
}

/// The number of leading `'0'` bytes.
pub open spec fn zero_run(b: Seq<u8>) -> nat
    decreases b.len(),
{
    if b.len() > 0 && b[0] == 0x30u8 {
        1 + zero_run(b.drop_first())
    } else {
        0
    }
}

/// A block's fork-choice weight: its leading `'0'` count, at least one.
pub open spec fn block_weight(b: Block) -> u128 {
    let z = zero_run(encode_utf8(b.hash@));
    if z == 0 {
        1
    } else {
        z as u128
    }
}

/// Saturating sum of the block weights of a chain.
pub open spec fn fork_score(chain: Seq<Block>) -> u128
    decreases chain.len(),
{
    if chain.len() == 0 {
        0
    } else {
        sat_add_u128(fork_score(chain.drop_last()), block_weight(chain.last()))
    }
}

proof fn lemma_zero_run(b: Seq<u8>, k: int)
    requires
        0 <= k <= b.len(),
        forall|j: int| 0 <= j < k ==> b[j] == 0x30u8,
        k == b.len() || b[k] != 0x30u8,
    ensures
        zero_run(b) == k,
    decreases k,
{
    if k > 0 {
        lemma_zero_run(b.drop_first(), k - 1);
    }
}

impl PoWEngine {
    pub closed spec fn difficulty(&self) -> usize {
        self.current_difficulty
    }

    /// The engine's configuration: the value of its public `config` field.
    /// The engine also holds a private difficulty, so outside this module
    /// contracts reach the field through this function only.
    pub closed spec fn cfg(&self) -> PoWConfig {
        self.config
    }

    pub fn new(difficulty: usize) -> (e: Self)
        ensures
            e.cfg() == (PoWConfig { difficulty, target_block_time: 10, adjustment_interval: 100 }),
            e.difficulty() == difficulty,
    {
        PoWEngine { config: PoWConfig { difficulty, ..Default::default() }, current_difficulty: difficulty }
    }

    pub fn with_config(config: PoWConfig) -> (e: Self)
        ensures
            e.cfg() == config,
            e.difficulty() == config.difficulty,
    {
        let d = config.difficulty;
        PoWEngine { config, current_difficulty: d }
    }

    pub fn get_difficulty(&self) -> (d: usize)
        ensures
            d == self.difficulty(),
    {
        self.current_difficulty
    }

    /// `difficulty` `'0'` characters.
    fn target(&self) -> (t: String)
        ensures
            t@ == Seq::new(self.difficulty() as nat, |i: int| '0'),
    {
        let mut t: String = String::new();
        let mut i: usize = 0;
        while i < self.current_difficulty
            invariant
                0 <= i <= self.current_difficulty,
                t@ == Seq::new(i as nat, |j: int| '0'),
            decreases self.current_difficulty - i,
        {
            proof {
                reveal_strlit("0");
            }
            t.append("0");
            i = i + 1;
            assert(t@ =~= Seq::new(i as nat, |j: int| '0'));
        }
        t
    }

    fn meets_difficulty(&self, hash: &str) -> (b: bool)
        ensures
            b == has_zero_prefix(hash@, self.difficulty() as nat),
    {
        let bytes: &[u8] = hash.as_bytes();
        if bytes.len() < self.current_difficulty {
            return false;
        }
        let mut i: usize = 0;
        while i < self.current_difficulty
            invariant
                0 <= i <= self.current_difficulty,
                self.current_difficulty <= bytes@.len(),
                bytes@ == encode_utf8(hash@),
                forall|j: int| 0 <= j < i ==> bytes@[j] == 0x30u8,
            decreases self.current_difficulty - i,
        {
            if bytes[i] != 0x30 {
                return false;
            }
            i = i + 1;
        }
        true
    }

    /// Search nonces upward until the block hash meets the difficulty. The
    /// search stops at the last nonce if none does.
    fn mine(&self, block: &mut Block)
        requires
            old(block).hash@ == spec_block_hash(*old(block)),
        ensures
            final(block).hash@ == spec_block_hash(*final(block)),
            has_zero_prefix(final(block).hash@, self.difficulty() as nat) || final(block).nonce == u64::MAX,
            final(block).nonce >= old(block).nonce,
            *final(block) == (Block { nonce: final(block).nonce, hash: final(block).hash, ..*old(block) }),
            forall|n: u64| old(block).nonce <= n < final(block).nonce ==> !has_zero_prefix(
                #[trigger] spec_block_hash(with_nonce(*old(block), n)),
                self.difficulty() as nat,
            ),
    {
        while !self.meets_difficulty(block.hash.as_str()) && block.nonce < u64::MAX
            invariant
                block.hash@ == spec_block_hash(*block),
                block.nonce >= old(block).nonce,
                *block == (Block { nonce: block.nonce, hash: block.hash, ..*old(block) }),
                forall|n: u64| old(block).nonce <= n < block.nonce ==> !has_zero_prefix(
                    #[trigger] spec_block_hash(with_nonce(*old(block), n)),
                    self.difficulty() as nat,
                ),
            ensures
                has_zero_prefix(block.hash@, self.difficulty() as nat) || block.nonce == u64::MAX,
                block.hash@ == spec_block_hash(*block),
                block.nonce >= old(block).nonce,
                *block == (Block { nonce: block.nonce, hash: block.hash, ..*old(block) }),
                forall|n: u64| old(block).nonce <= n < block.nonce ==> !has_zero_prefix(
                    #[trigger] spec_block_hash(with_nonce(*old(block), n)),
                    self.difficulty() as nat,
                ),
            decreases u64::MAX - block.nonce,
        {
            let ghost k = block.nonce;
            proof {
                assert(spec_block_hash(with_nonce(*old(block), k)) == spec_block_hash(*block)) by {
                    assert(block_hash_fields(with_nonce(*old(block), k)) == block_hash_fields(*block));
                }
            }
            block.nonce = block.nonce + 1;
            block.hash = block.calculate_hash();
        }
    }

    /// Retarget the difficulty from the last `adjustment_interval` blocks.
    pub fn calculate_new_difficulty(&self, chain: &[Block]) -> (d: usize)
        requires
            retarget_fits(self.cfg(), self.difficulty(), chain@),
        ensures
            d == spec_new_difficulty(self.cfg(), self.difficulty(), chain@),
    {
        if (chain.len() as u64) < self.config.adjustment_interval {
            return self.get_difficulty();
        }
        let interval: usize = self.config.adjustment_interval as usize;
        let last_block = &chain[chain.len() - 1];
        let first_block = &chain[chain.len() - interval];
        let actual_time: u128 = (last_block.timestamp - first_block.timestamp) / 1000;
        let expected_time: u64 = self.config.target_block_time * self.config.adjustment_interval;
        let divisor: u128 = if actual_time >= 1 { actual_time } else { 1 };
        let ratio_scaled: u128 = (expected_time as u128 * 100) / divisor;
        let new_diff: usize = (self.get_difficulty() * ratio_scaled as usize) / 100;
        if new_diff < 1 {
            1
        } else if new_diff > 32 {
            32
        } else {
            new_diff
        }
    }

    /// Compute the block hash and mine it. Fails only if every nonce above
    /// the block's was tried.
    pub fn prepare_block(&self, block: &mut Block, _state: &AccountState) -> (r: Result<(), ConsensusError>)
        ensures
            final(block).hash@ == spec_block_hash(*final(block)),
            r is Ok <==> has_zero_prefix(final(block).hash@, self.difficulty() as nat),
            *final(block) == (Block { nonce: final(block).nonce, hash: final(block).hash, ..*old(block) }),
            final(block).nonce >= old(block).nonce,
            forall|n: u64| old(block).nonce <= n < final(block).nonce ==> !has_zero_prefix(
                #[trigger] spec_block_hash(with_nonce(*old(block), n)),
                self.difficulty() as nat,
            ),
            r is Err ==> final(block).nonce == u64::MAX,
    {
        block.hash = block.calculate_hash();
        let ghost b1 = *block;
        proof {
            assert forall|n: u64| #[trigger] spec_block_hash(with_nonce(b1, n)) == spec_block_hash(
                with_nonce(*old(block), n),
            ) by {
                assert(block_hash_fields(with_nonce(b1, n)) == block_hash_fields(with_nonce(*old(block), n)));
            }
        }
        self.mine(block);
        proof {
            assert forall|n: u64| old(block).nonce <= n < block.nonce implies !has_zero_prefix(
                #[trigger] spec_block_hash(with_nonce(*old(block), n)),
                self.difficulty() as nat,
            ) by {
                assert(spec_block_hash(with_nonce(b1, n)) == spec_block_hash(with_nonce(*old(block), n)));
            }
        }
        if self.meets_difficulty(block.hash.as_str()) {
            Ok(())
        } else {
            Err(ConsensusError("Nonce space exhausted before the difficulty was met".to_owned()))
        }
    }

    /// Check a block against the chain: the genesis block needs only a
    /// correct hash; any other block must extend the last block, carry its
    /// own hash, and meet the difficulty (retargeted first at interval
    /// heights).
    pub fn validate_block(&mut self, block: &Block, chain: &[Block], _state: &AccountState) -> (r: Result<(), ConsensusError>)
        requires
            (block.index > 0 && old(self).cfg().adjustment_interval > 0 && block.index
                % old(self).cfg().adjustment_interval == 0) ==> retarget_fits(
                old(self).cfg(),
                old(self).difficulty(),
                chain@,
            ),
        ensures
            final(self).cfg() == old(self).cfg(),
            final(self).difficulty() == (if block.index > 0 && block.hash@ == spec_block_hash(*block) && (chain@.len() == 0
                || block.previous_hash@ == chain@.last().hash@) && old(self).cfg().adjustment_interval > 0
                && block.index % old(self).cfg().adjustment_interval == 0 {
                spec_new_difficulty(old(self).cfg(), old(self).difficulty(), chain@)
            } else {
                old(self).difficulty()
            }),
            r is Ok <==> pow_accepts(old(self).cfg(), old(self).difficulty(), *block, chain@),
    {
        if block.index == 0 {
            let h = block.calculate_hash();
            if block.hash != h {
                return Err(ConsensusError("Invalid genesis block hash".to_owned()));
            }
            return Ok(());
        }
        if chain.len() > 0 {
            let prev_block = &chain[chain.len() - 1];
            if block.previous_hash != prev_block.hash {
                let mut msg: String = "Previous hash mismatch. Expected: ".to_owned();
                msg.append(prev_block.hash.as_str());
                msg.append(", Got: ");
                msg.append(block.previous_hash.as_str());
                return Err(ConsensusError(msg));
            }
        }
        let calculated_hash = block.calculate_hash();
        if block.hash != calculated_hash {
            let mut msg: String = "Invalid block hash. Calculated: ".to_owned();
            msg.append(calculated_hash.as_str());
            msg.append(", Existing: ");
            msg.append(block.hash.as_str());
            return Err(ConsensusError(msg));
        }
        if self.config.adjustment_interval > 0 && block.index % self.config.adjustment_interval == 0 {
            let new_diff: usize = self.calculate_new_difficulty(chain);
            self.current_difficulty = new_diff;
        }
        if !self.meets_difficulty(block.hash.as_str()) {
            let mut msg: String = "Invalid PoW. ".to_owned();
            msg.append(decimal(self.current_difficulty as u64).as_str());
            msg.append(" leading zeros required, hash: ");
            msg.append(block.hash.as_str());
            return Err(ConsensusError(msg));
        }
        Ok(())
    }

    /// A one-line description: difficulty and target prefix.
    pub fn info(&self) -> (s: String)
        ensures
            s@ == "PoW (difficulty: "@ + spec_decimal(self.difficulty() as nat) + ", target: "@ + Seq::new(
                self.difficulty() as nat,
                |i: int| '0',
            ) + "...)"@,
    {
        let mut s: String = "PoW (difficulty: ".to_owned();
        s.append(decimal(self.current_difficulty as u64).as_str());
        s.append(", target: ");
        s.append(self.target().as_str());
        s.append("...)");
        s
    }

    pub fn consensus_type(&self) -> (s: &'static str)
        ensures
            s@ == "PoW"@,
    {
        "PoW"
    }

    /// Chain weight for fork choice: each block counts its leading `'0'`
    /// characters, at least one (saturating).
    pub fn fork_choice_score(&self, chain: &[Block]) -> (score: u128)
        ensures
            score == fork_score(chain@),
    {
        let mut acc: u128 = 0;
        let mut i: usize = 0;
        while i < chain.len()
            invariant
                0 <= i <= chain@.len(),
                acc == fork_score(chain@.subrange(0, i as int)),
            decreases chain@.len() - i,
        {
            let bytes: &[u8] = chain[i].hash.as_str().as_bytes();
            let mut k: usize = 0;
            while k < bytes.len() && bytes[k] == 0x30
                invariant
                    0 <= k <= bytes@.len(),
                    forall|j: int| 0 <= j < k ==> bytes@[j] == 0x30u8,
                decreases bytes@.len() - k,
            {
                k = k + 1;
            }
            proof {
                lemma_zero_run(bytes@, k as int);
                assert(chain@.subrange(0, i + 1).drop_last() =~= chain@.subrange(0, i as int));
                assert(chain@.subrange(0, i + 1).last() == chain@[i as int]);
            }
            let weight: u128 = if k == 0 { 1 } else { k as u128 };
            acc = acc.saturating_add(weight);
            i = i + 1;
        }
        assert(chain@.subrange(0, chain@.len() as int) =~= chain@);
        acc
    }
}

/// Leading zeros for a difficulty are leading zeros for every lower one.
proof fn lemma_zero_prefix_lower(h: Seq<char>, d: nat, e: nat)
    requires
        has_zero_prefix(h, d),
        e <= d,
    ensures
        has_zero_prefix(h, e),
{
}

/// What mining produces, validation accepts: a block whose hash is its own
/// and shows the engine's difficulty in leading zeros, linked to the tip, is
/// accepted whenever no retarget falls at its height, and also at a retarget
/// that does not raise the difficulty.
pub proof fn law_mined_block_is_accepted(cfg: PoWConfig, difficulty: usize, block: Block, chain: Seq<Block>)
    requires
        block.hash@ == spec_block_hash(block),
        has_zero_prefix(block.hash@, difficulty as nat),
        links_to_tip(block, chain),
    ensures
        !(block.index > 0 && cfg.adjustment_interval > 0 && block.index % cfg.adjustment_interval == 0) ==> pow_accepts(
            cfg,
            difficulty,
            block,
            chain,
        ),
        checked_difficulty(cfg, difficulty, block.index, chain) <= difficulty ==> pow_accepts(
            cfg,
            difficulty,
            block,
            chain,
        ),
{
    let c = checked_difficulty(cfg, difficulty, block.index, chain);
    if c <= difficulty {
        lemma_zero_prefix_lower(block.hash@, difficulty as nat, c as nat);
    }
}

proof fn lemma_zero_run_bounded(b: Seq<u8>)
    ensures
        zero_run(b) <= b.len(),
    decreases b.len(),
{
    if b.len() > 0 && b[0] == 0x30u8 {
        lemma_zero_run_bounded(b.drop_first());
    }
}

/// A retarget looks only at the last `adjustment_interval` blocks: blocks
/// added before them never change the new difficulty.
pub proof fn law_retarget_ignores_older_blocks(cfg: PoWConfig, difficulty: usize, older: Seq<Block>, chain: Seq<Block>)
    requires
        cfg.adjustment_interval > 0,
        chain.len() >= cfg.adjustment_interval,
    ensures
        spec_new_difficulty(cfg, difficulty, older + chain) == spec_new_difficulty(cfg, difficulty, chain),
{
    let full = older + chain;
    let n = chain.len() as int;
    let k = cfg.adjustment_interval as int;
    assert(full[full.len() - 1] == chain[n - 1]);
    assert(full[full.len() - k] == chain[n - k]);
    assert(retarget_window(full, k) == retarget_window(chain, k));
}

/// The retarget measures the last interval: from the block `interval - 1`
/// places before the tip to the tip, in whole seconds (at least 1). The new
/// difficulty is the old one scaled by expected/measured time (expected =
/// target block time × interval), rounded down and kept within `1..=32`.
pub proof fn law_retarget_measures_last_interval(cfg: PoWConfig, difficulty: usize, chain: Seq<Block>)
    requires
        cfg.adjustment_interval > 0,
        chain.len() >= cfg.adjustment_interval,
    ensures
        ({
            let n = chain.len() as int;
            let secs = (chain[n - 1].timestamp - chain[n - cfg.adjustment_interval as int].timestamp) / 1000;
            let measured = if secs >= 1 { secs } else { 1 };
            let ratio = (cfg.target_block_time * cfg.adjustment_interval * 100) / measured;
            let scaled = (difficulty * (ratio as usize)) / 100;
            spec_new_difficulty(cfg, difficulty, chain) == (if scaled < 1 {
                1
            } else if scaled > 32 {
                32
            } else {
                scaled
            })
        }),
{
}

/// Fork choice prefers longer work: extending a chain never lowers its
/// score, and raises it while the score is below the saturation point (for
/// a hash of any length a machine can hold).
pub proof fn law_extending_chain_raises_score(chain: Seq<Block>, b: Block)
    requires
        encode_utf8(b.hash@).len() <= u64::MAX,
    ensures
        fork_score(chain.push(b)) >= fork_score(chain),
        fork_score(chain) < u128::MAX ==> fork_score(chain.push(b)) > fork_score(chain),
{
    lemma_zero_run_bounded(encode_utf8(b.hash@));
    assert(block_weight(b) >= 1);
    assert(chain.push(b).drop_last() =~= chain);
}

} // verus!

//! State snapshots (with their integrity hash), snapshot chunking for
//! transfer, and the pruning policy that snapshots make safe.
use vstd::prelude::*;
use vstd::string::StringSliceAdditionalSpecFns;
use vstd::utf8::encode_utf8;
use crate::core_types::account::{AccountState, Account, Validator, UnbondingEntry, flag_byte};
use crate::core_types::addr_map::sorted_entries;
use crate::core_types::address::Address;
use crate::core_types::hash::{
    extend_bytes, le_bytes, lemma_byte_bounds, lemma_le_bytes_injective, lemma_le_bytes_value, spec_sha3_256, sha3_256,
    u32_le_bytes, u64_le_bytes,
};
use crate::core_types::hex::{hex_encode, spec_hex_encode};
use crate::core_types::time::unix_millis;
use crate::core_types::error::{decimal, spec_decimal};
use crate::core_types::numtext::{parse_u64_bytes, spec_parse_u64, ascii_bytes, lemma_decimal_digits, lemma_decimal_bytes, law_decimal_parses_back};
use crate::tokenomics::{TimedBurnState, TokenomicsParams, VestingSchedule};

verus! {

#[derive(Debug, Clone)]
pub struct StateSnapshot {
    pub height: u64,
    pub block_hash: String,
    pub chain_id: u64,
    pub created_at: u128,
    /// Balances in ascending address order.
    pub balances: Vec<(Address, u64)>,
    /// Nonces in ascending address order.
    pub nonces: Vec<(Address, u64)>,
    pub finalized_height: u64,
    pub finalized_hash: String,
    /// Validators in ascending address order.
    pub validators: Vec<(Address, Validator)>,
    pub snapshot_hash: String,
}

pub open spec fn pairs_view(v: Seq<(Address, u64)>) -> Seq<(Seq<u8>, u64)> {
    v.map_values(|e: (Address, u64)| (e.0.0@, e.1))
}

pub open spec fn vals_view(v: Seq<(Address, Validator)>) -> Seq<(Seq<u8>, Validator)> {
    v.map_values(|e: (Address, Validator)| (e.0.0@, e.1))
}

/// Each entry as its address then its value (8 bytes, little-endian).
pub open spec fn pair_bytes(s: Seq<(Seq<u8>, u64)>) -> Seq<u8>
    decreases s.len(),
{
    if s.len() == 0 {
        Seq::empty()
    } else {
        pair_bytes(s.drop_last()) + s.last().0 + le_bytes(s.last().1 as nat, 8)
    }
}

pub open spec fn validator_record(e: (Seq<u8>, Validator)) -> Seq<u8> {
    e.0 + le_bytes(e.1.stake as nat, 8) + seq![flag_byte(e.1.active), flag_byte(e.1.slashed), flag_byte(e.1.jailed)]
        + le_bytes(e.1.jail_until as nat, 8)
}

pub open spec fn validator_bytes(s: Seq<(Seq<u8>, Validator)>) -> Seq<u8>
    decreases s.len(),
{
    if s.len() == 0 {
        Seq::empty()
    } else {
        validator_bytes(s.drop_last()) + validator_record(s.last())
    }
}

pub open spec fn unbonding_record(e: UnbondingEntry) -> Seq<u8> {
    e.address.0@ + le_bytes(e.amount as nat, 8) + le_bytes(e.release_epoch as nat, 8)
}

pub open spec fn unbonding_bytes(q: Seq<UnbondingEntry>) -> Seq<u8>
    decreases q.len(),
{
    if q.len() == 0 {
        Seq::empty()
    } else {
        unbonding_bytes(q.drop_last()) + unbonding_record(q.last())
    }
}

/// What a snapshot hash digests: height, block hash, chain id, balances,
/// nonces, validators, then the finalized height and hash.
pub open spec fn snapshot_preimage(s: StateSnapshot) -> Seq<u8> {
    le_bytes(s.height as nat, 8) + encode_utf8(s.block_hash@) + le_bytes(s.chain_id as nat, 8) + pair_bytes(
        pairs_view(s.balances@),
    ) + pair_bytes(pairs_view(s.nonces@)) + validator_bytes(vals_view(s.validators@)) + le_bytes(
        s.finalized_height as nat,
        8,
    ) + encode_utf8(s.finalized_hash@)
}

/// The snapshot hash: hex SHA3-256 of the preimage.
pub open spec fn spec_snapshot_hash(s: StateSnapshot) -> Seq<char> {
    spec_hex_encode(spec_sha3_256(snapshot_preimage(s)))
}

pub open spec fn balances_of(accounts: Map<Seq<u8>, Account>) -> Seq<(Seq<u8>, u64)> {
    sorted_entries(accounts).map_values(|e: (Seq<u8>, Account)| (e.0, e.1.balance))
}

pub open spec fn nonces_of(accounts: Map<Seq<u8>, Account>) -> Seq<(Seq<u8>, u64)> {
    sorted_entries(accounts).map_values(|e: (Seq<u8>, Account)| (e.0, e.1.nonce))
}

fn append_pairs(out: &mut Vec<u8>, v: &Vec<(Address, u64)>)
    ensures
        final(out)@ == old(out)@ + pair_bytes(pairs_view(v@)),
{
    let ghost init = out@;
    let n: usize = v.len();
    let mut i: usize = 0;
    assert(pairs_view(v@.subrange(0, 0)) =~= Seq::<(Seq<u8>, u64)>::empty());
    while i < n
        invariant
            0 <= i <= n,
            n == v@.len(),
            out@ == init + pair_bytes(pairs_view(v@.subrange(0, i as int))),
        decreases n - i,
    {
        let (a, x) = v[i];
        extend_bytes(out, a.as_bytes());
        let xb = u64_le_bytes(x);
        extend_bytes(out, xb.as_slice());
        proof {
            let p = pairs_view(v@.subrange(0, i + 1));
            assert(p.drop_last() =~= pairs_view(v@.subrange(0, i as int)));
            assert(p.last() == (a.0@, x));
            assert(out@ =~= init + pair_bytes(p));
        }
        i = i + 1;
    }
    assert(v@.subrange(0, n as int) =~= v@);
}

fn append_validators(out: &mut Vec<u8>, v: &Vec<(Address, Validator)>)
    ensures
        final(out)@ == old(out)@ + validator_bytes(vals_view(v@)),
{
    let ghost init = out@;
    let n: usize = v.len();
    let mut i: usize = 0;
    assert(vals_view(v@.subrange(0, 0)) =~= Seq::<(Seq<u8>, Validator)>::empty());
    while i < n
        invariant
            0 <= i <= n,
            n == v@.len(),
            out@ == init + validator_bytes(vals_view(v@.subrange(0, i as int))),
        decreases n - i,
    {
        let (a, val) = v[i];
        extend_bytes(out, a.as_bytes());
        let stake = u64_le_bytes(val.stake);
        extend_bytes(out, stake.as_slice());
        out.push(if val.active { 1u8 } else { 0u8 });
        out.push(if val.slashed { 1u8 } else { 0u8 });
        out.push(if val.jailed { 1u8 } else { 0u8 });
        let jail = u64_le_bytes(val.jail_until);
        extend_bytes(out, jail.as_slice());
        proof {
            let p = vals_view(v@.subrange(0, i + 1));
            assert(p.drop_last() =~= vals_view(v@.subrange(0, i as int)));
            assert(p.last() == (a.0@, val));
            assert(out@ =~= init + validator_bytes(p));
        }
        i = i + 1;
    }
    assert(v@.subrange(0, n as int) =~= v@);
}

fn append_unbonding(out: &mut Vec<u8>, q: &Vec<UnbondingEntry>)
    ensures
        final(out)@ == old(out)@ + unbonding_bytes(q@),
{
    let ghost init = out@;
    let n: usize = q.len();
    let mut i: usize = 0;
    assert(q@.subrange(0, 0) =~= Seq::<UnbondingEntry>::empty());
    while i < n
        invariant
            0 <= i <= n,
            n == q@.len(),
            out@ == init + unbonding_bytes(q@.subrange(0, i as int)),
        decreases n - i,
    {
        let e: UnbondingEntry = q[i];
        extend_bytes(out, e.address.as_bytes());
        let amount = u64_le_bytes(e.amount);
        extend_bytes(out, amount.as_slice());
        let release = u64_le_bytes(e.release_epoch);
        extend_bytes(out, release.as_slice());
        proof {
            let p = q@.subrange(0, i + 1);
            assert(p.drop_last() =~= q@.subrange(0, i as int));
            assert(p.last() == e);
            assert(out@ =~= init + unbonding_bytes(p));
        }
        i = i + 1;
    }
    assert(q@.subrange(0, n as int) =~= q@);
}

fn append_str(out: &mut Vec<u8>, s: &String)
    ensures
        final(out)@ == old(out)@ + encode_utf8(s@),
{
    extend_bytes(out, s.as_str().as_bytes());
}

impl StateSnapshot {
    /// Snapshot a ledger at `height`: all balances, nonces and validators in
    /// address order, sealed with the snapshot hash.
    pub fn from_state(
        height: u64,
        block_hash: String,
        chain_id: u64,
        account_state: &AccountState,
        finalized_height: u64,
        finalized_hash: String,
    ) -> (s: Self)
        requires
            account_state.wf(),
        ensures
            s.height == height,
            s.block_hash@ == block_hash@,
            s.chain_id == chain_id,
            s.finalized_height == finalized_height,
            s.finalized_hash@ == finalized_hash@,
            pairs_view(s.balances@) == balances_of(account_state.accounts@),
            pairs_view(s.nonces@) == nonces_of(account_state.accounts@),
            vals_view(s.validators@) == sorted_entries(account_state.validators@),
            s.snapshot_hash@ == spec_snapshot_hash(s),
            s.snapshot_hash@.len() == 64,
    {
        let created_at: u128 = unix_millis();
        let balances = account_state.get_all_balances();
        let nonces = account_state.get_all_nonces();
        let validators = account_state.get_all_validators();
        let mut snapshot = StateSnapshot {
            height,
            block_hash,
            chain_id,
            created_at,
            balances,
            nonces,
            finalized_height,
            finalized_hash,
            validators,
            snapshot_hash: String::new(),
        };
        snapshot.snapshot_hash = snapshot.calculate_hash();
        snapshot
    }

    fn calculate_hash(&self) -> (h: String)
        ensures
            h@ == spec_snapshot_hash(*self),
            h@.len() == 64,
    {
        let mut buf: Vec<u8> = Vec::new();
        let hb = u64_le_bytes(self.height);
        extend_bytes(&mut buf, hb.as_slice());
        append_str(&mut buf, &self.block_hash);
        let cb = u64_le_bytes(self.chain_id);
        extend_bytes(&mut buf, cb.as_slice());
        append_pairs(&mut buf, &self.balances);
        append_pairs(&mut buf, &self.nonces);
        append_validators(&mut buf, &self.validators);
        let fb = u64_le_bytes(self.finalized_height);
        extend_bytes(&mut buf, fb.as_slice());
        append_str(&mut buf, &self.finalized_hash);
        assert(buf@ =~= snapshot_preimage(*self));
        let digest = sha3_256(buf.as_slice());
        hex_encode(&digest)
    }

    /// Whether the stored hash matches the contents.
    pub fn verify(&self) -> (b: bool)
        ensures
            b == (self.snapshot_hash@ == spec_snapshot_hash(*self)),
    {
        let h = self.calculate_hash();
        self.snapshot_hash == h
    }

    /// Split serialized snapshot bytes into transfer chunks of `chunk_size`
    /// (the last may be shorter).
    pub fn chunk(data: &[u8], chunk_size: usize) -> (chunks: Vec<Vec<u8>>)
        requires
            chunk_size > 0,
        ensures
            flatten(chunks@.map_values(|c: Vec<u8>| c@)) == data@,
            forall|i: int| 0 <= i < chunks@.len() ==> 0 < (#[trigger] chunks@[i])@.len() <= chunk_size,
            forall|i: int| 0 <= i < chunks@.len() - 1 ==> (#[trigger] chunks@[i])@.len() == chunk_size,
    {
        chunk_bytes(data, chunk_size)
    }
}

/// The concatenation of a list of byte strings.
pub open spec fn flatten(s: Seq<Seq<u8>>) -> Seq<u8>
    decreases s.len(),
{
    if s.len() == 0 {
        Seq::empty()
    } else {
        flatten(s.drop_last()) + s.last()
    }
}

/// Split `data` into pieces of `chunk_size` bytes, the last possibly shorter.
pub fn chunk_bytes(data: &[u8], chunk_size: usize) -> (chunks: Vec<Vec<u8>>)
    requires
        chunk_size > 0,
    ensures
        flatten(chunks@.map_values(|c: Vec<u8>| c@)) == data@,
        forall|i: int| 0 <= i < chunks@.len() ==> 0 < (#[trigger] chunks@[i])@.len() <= chunk_size,
        forall|i: int| 0 <= i < chunks@.len() - 1 ==> (#[trigger] chunks@[i])@.len() == chunk_size,
{
    let mut chunks: Vec<Vec<u8>> = Vec::new();
    let n: usize = data.len();
    let mut pos: usize = 0;
    while pos < n
        invariant
            0 <= pos <= n,
            n == data@.len(),
            chunk_size > 0,
            flatten(chunks@.map_values(|c: Vec<u8>| c@)) == data@.subrange(0, pos as int),
            forall|i: int| 0 <= i < chunks@.len() ==> 0 < (#[trigger] chunks@[i])@.len() <= chunk_size,
            forall|i: int| 0 <= i < chunks@.len() - 1 ==> (#[trigger] chunks@[i])@.len() == chunk_size,
            chunks@.len() > 0 && chunks@.last()@.len() != chunk_size ==> pos == n,
        decreases n - pos,
    {
        let end: usize = if n - pos > chunk_size { pos + chunk_size } else { n };
        let mut piece: Vec<u8> = Vec::new();
        let mut k: usize = pos;
        while k < end
            invariant
                pos <= k <= end <= n,
                n == data@.len(),
                piece@ == data@.subrange(pos as int, k as int),
            decreases end - k,
        {
            piece.push(data[k]);
            k = k + 1;
            assert(piece@ =~= data@.subrange(pos as int, k as int));
        }
        let ghost prev = chunks@;
        chunks.push(piece);
        proof {
            let f = chunks@.map_values(|c: Vec<u8>| c@);
            assert(f.drop_last() =~= prev.map_values(|c: Vec<u8>| c@));
            assert(data@.subrange(0, end as int) =~= data@.subrange(0, pos as int) + data@.subrange(pos as int, end as int));
        }
        pos = end;
    }
    chunks
}

#[derive(Debug, Clone)]
pub struct PruningManager {
    pub min_blocks_to_keep: u64,
    pub snapshot_interval: u64,
    pub snapshot_dir: String,
}

pub open spec fn min3(a: u64, b: u64, c: u64) -> u64 {
    let ab = if a < b { a } else { b };
    if ab < c {
        ab
    } else {
        c
    }
}

/// The highest height (exclusive) that may be pruned: below the retained
/// tail, the latest snapshot and the finalized height.
pub open spec fn safe_prune_bound(keep: u64, chain_length: u64, snapshot_height: u64, finalized_height: u64) -> u64 {
    if chain_length <= keep {
        0
    } else {
        min3((chain_length - keep) as u64, snapshot_height, finalized_height)
    }
}

impl PruningManager {
    pub fn new(min_blocks: u64, snapshot_interval: u64, snapshot_dir: String) -> (m: Self)
        ensures
            m.min_blocks_to_keep == min_blocks,
            m.snapshot_interval == snapshot_interval,
            m.snapshot_dir@ == snapshot_dir@,
    {
        PruningManager { min_blocks_to_keep: min_blocks, snapshot_interval, snapshot_dir }
    }

    /// A snapshot is due at every positive multiple of the interval.
    pub fn should_create_snapshot(&self, height: u64) -> (b: bool)
        ensures
            b == (height > 0 && self.snapshot_interval > 0 && height % self.snapshot_interval == 0),
    {
        height > 0 && self.snapshot_interval > 0 && height % self.snapshot_interval == 0
    }

    /// Heights `1..bound` where `bound` is the least of: chain length minus
    /// the retained tail, the latest snapshot height and the finalized
    /// height. Nothing is prunable while the chain is within the tail.
    pub fn get_prunable_blocks(&self, chain_length: u64, latest_snapshot_height: u64, finalized_height: u64) -> (v: Vec<u64>)
        ensures
            ({
                let bound = safe_prune_bound(self.min_blocks_to_keep, chain_length, latest_snapshot_height, finalized_height);
                v@ == Seq::new(if bound == 0 { 0nat } else { (bound - 1) as nat }, |i: int| (i + 1) as u64)
            }),
            forall|i: int| 0 <= i < v@.len() ==> 1 <= #[trigger] v@[i] && v@[i] < latest_snapshot_height && v@[i]
                < finalized_height && v@[i] + self.min_blocks_to_keep < chain_length,
    {
        if chain_length <= self.min_blocks_to_keep {
            return Vec::new();
        }
        let prune_up_to: u64 = chain_length - self.min_blocks_to_keep;
        let mut safe: u64 = prune_up_to;
        if latest_snapshot_height < safe {
            safe = latest_snapshot_height;
        }
        if finalized_height < safe {
            safe = finalized_height;
        }
        let mut v: Vec<u64> = Vec::new();
        if safe == 0 {
            return v;
        }
        let mut h: u64 = 1;
        while h < safe
            invariant
                1 <= h <= safe,
                v@ == Seq::new((h - 1) as nat, |i: int| (i + 1) as u64),
            decreases safe - h,
        {
            v.push(h);
            h = h + 1;
            assert(v@ =~= Seq::new((h - 1) as nat, |i: int| (i + 1) as u64));
        }
        v
    }
}

/// Pruning never reaches the latest snapshot, finality, or the retained tail:
/// every height it returns lies strictly below all three.
pub proof fn law_pruning_stays_below_snapshot_and_finality(keep: u64, chain_length: u64, snapshot_height: u64, finalized_height: u64, h: int)
    requires
        1 <= h < safe_prune_bound(keep, chain_length, snapshot_height, finalized_height),
    ensures
        h < snapshot_height,
        h < finalized_height,
        h + keep < chain_length,
{
}

/// The parts of a validator the snapshot seal covers: address bytes, stake,
/// the three flags and the jail release.
pub open spec fn sealed_validator(e: (Seq<u8>, Validator)) -> (Seq<u8>, u64, bool, bool, bool, u64) {
    (e.0, e.1.stake, e.1.active, e.1.slashed, e.1.jailed, e.1.jail_until)
}

/// Everything the snapshot hash covers (all but the creation time and the
/// stored hash itself).
pub open spec fn sealed_view(s: StateSnapshot) -> (
    u64,
    Seq<char>,
    u64,
    Seq<(Seq<u8>, u64)>,
    Seq<(Seq<u8>, u64)>,
    Seq<(Seq<u8>, u64, bool, bool, bool, u64)>,
    u64,
    Seq<char>,
) {
    (
        s.height,
        s.block_hash@,
        s.chain_id,
        pairs_view(s.balances@),
        pairs_view(s.nonces@),
        vals_view(s.validators@).map_values(|e: (Seq<u8>, Validator)| sealed_validator(e)),
        s.finalized_height,
        s.finalized_hash@,
    )
}

/// The number of sealed parts in which two snapshots differ.
pub open spec fn sealed_differences(s: StateSnapshot, t: StateSnapshot) -> int {
    let a = sealed_view(s);
    let b = sealed_view(t);
    (if a.0 != b.0 { 1int } else { 0 }) + (if a.1 != b.1 { 1int } else { 0 }) + (if a.2 != b.2 { 1int } else { 0 })
        + (if a.3 != b.3 { 1int } else { 0 }) + (if a.4 != b.4 { 1int } else { 0 }) + (if a.5 != b.5 { 1int } else { 0 })
        + (if a.6 != b.6 { 1int } else { 0 }) + (if a.7 != b.7 { 1int } else { 0 })
}

proof fn lemma_flatten_concat(x: Seq<Seq<u8>>, y: Seq<Seq<u8>>)
    ensures
        flatten(x + y) == flatten(x) + flatten(y),
    decreases y.len(),
{
    if y.len() == 0 {
        assert(x + y =~= x);
        assert(flatten(x) + flatten(y) =~= flatten(x));
    } else {
        assert((x + y).drop_last() =~= x + y.drop_last());
        assert((x + y).last() == y.last());
        lemma_flatten_concat(x, y.drop_last());
        assert(flatten(x + y) =~= flatten(x) + flatten(y));
    }
}

/// Equal concatenations of parts that agree everywhere but at `k` agree
/// at `k` too.
proof fn lemma_flatten_cancel(a: Seq<Seq<u8>>, b: Seq<Seq<u8>>, k: int)
    requires
        a.len() == b.len(),
        0 <= k < a.len(),
        forall|i: int| 0 <= i < a.len() && i != k ==> a[i] == b[i],
        flatten(a) == flatten(b),
    ensures
        a[k] == b[k],
{
    let pa = a.take(k);
    let pb = b.take(k);
    let sa = a.skip(k + 1);
    let sb = b.skip(k + 1);
    assert(pa =~= pb);
    assert(sa =~= sb);
    assert(a =~= pa + seq![a[k]] + sa);
    assert(b =~= pb + seq![b[k]] + sb);
    lemma_flatten_concat(pa + seq![a[k]], sa);
    lemma_flatten_concat(pa, seq![a[k]]);
    lemma_flatten_concat(pb + seq![b[k]], sb);
    lemma_flatten_concat(pb, seq![b[k]]);
    assert(flatten(seq![a[k]]) =~= a[k]) by {
        reveal_with_fuel(flatten, 2);
        assert(seq![a[k]].drop_last() =~= Seq::<Seq<u8>>::empty());
        assert(flatten(Seq::<Seq<u8>>::empty()) =~= Seq::<u8>::empty());
    }
    assert(flatten(seq![b[k]]) =~= b[k]) by {
        reveal_with_fuel(flatten, 2);
        assert(seq![b[k]].drop_last() =~= Seq::<Seq<u8>>::empty());
        assert(flatten(Seq::<Seq<u8>>::empty()) =~= Seq::<u8>::empty());
    }
    let l = flatten(a);
    let p = flatten(pa);
    let q = flatten(sa);
    assert(pa == pb);
    assert(sa == sb);
    assert(flatten(a) =~= p + a[k] + q);
    assert(flatten(b) =~= flatten(pb) + b[k] + flatten(sb));
    assert(l =~= p + b[k] + q);
    assert(l.len() == p.len() + a[k].len() + q.len());
    assert(l.len() == p.len() + b[k].len() + q.len());
    assert(a[k].len() == b[k].len());
    assert(l.subrange(p.len() as int, (p.len() + a[k].len()) as int) =~= a[k]);
    assert(l.subrange(p.len() as int, (p.len() + b[k].len()) as int) =~= b[k]);
}

/// The parts of a snapshot's hash preimage, in order.
pub open spec fn snapshot_parts(s: StateSnapshot) -> Seq<Seq<u8>> {
    seq![
        le_bytes(s.height as nat, 8),
        encode_utf8(s.block_hash@),
        le_bytes(s.chain_id as nat, 8),
        pair_bytes(pairs_view(s.balances@)),
        pair_bytes(pairs_view(s.nonces@)),
        validator_bytes(vals_view(s.validators@)),
        le_bytes(s.finalized_height as nat, 8),
        encode_utf8(s.finalized_hash@),
    ]
}

proof fn lemma_snapshot_parts(s: StateSnapshot)
    ensures
        snapshot_preimage(s) == flatten(snapshot_parts(s)),
{
    reveal_with_fuel(flatten, 9);
    let ps = snapshot_parts(s);
    assert(ps.drop_last().drop_last().drop_last().drop_last().drop_last().drop_last().drop_last().drop_last()
        =~= Seq::<Seq<u8>>::empty());
    assert(snapshot_preimage(s) =~= flatten(ps));
}

/// Validator encodings depend only on the sealed fields.
proof fn lemma_validator_bytes_sealed(a: Seq<(Seq<u8>, Validator)>, b: Seq<(Seq<u8>, Validator)>)
    requires
        a.map_values(|e: (Seq<u8>, Validator)| sealed_validator(e)) == b.map_values(
            |e: (Seq<u8>, Validator)| sealed_validator(e),
        ),
    ensures
        validator_bytes(a) == validator_bytes(b),
    decreases a.len(),
{
    let ma = a.map_values(|e: (Seq<u8>, Validator)| sealed_validator(e));
    let mb = b.map_values(|e: (Seq<u8>, Validator)| sealed_validator(e));
    assert(a.len() == ma.len() && b.len() == mb.len());
    if a.len() > 0 {
        let da = a.drop_last();
        let db = b.drop_last();
        assert(da.map_values(|e: (Seq<u8>, Validator)| sealed_validator(e)) =~= db.map_values(
            |e: (Seq<u8>, Validator)| sealed_validator(e),
        )) by {
            assert forall|i: int| 0 <= i < da.len() implies sealed_validator(da[i]) == sealed_validator(db[i]) by {
                assert(ma[i] == mb[i]);
            }
        }
        lemma_validator_bytes_sealed(da, db);
        assert(ma[a.len() - 1] == mb[a.len() - 1]);
        assert(validator_record(a.last()) =~= validator_record(b.last()));
    }
}

proof fn lemma_pair_bytes_injective(a: Seq<(Seq<u8>, u64)>, b: Seq<(Seq<u8>, u64)>)
    requires
        forall|i: int| 0 <= i < a.len() ==> #[trigger] a[i].0.len() == 32,
        forall|i: int| 0 <= i < b.len() ==> #[trigger] b[i].0.len() == 32,
        pair_bytes(a) == pair_bytes(b),
    ensures
        a == b,
    decreases a.len() + b.len(),
{
    lemma_byte_bounds();
    lemma_pair_bytes_len(a);
    lemma_pair_bytes_len(b);
    if a.len() > 0 && b.len() > 0 {
        let da = a.drop_last();
        let db = b.drop_last();
        lemma_pair_bytes_len(da);
        lemma_pair_bytes_len(db);
        lemma_le_bytes_value(a.last().1 as nat, 8);
        lemma_le_bytes_value(b.last().1 as nat, 8);
        let x = pair_bytes(a);
        let l: int = 40 * (da.len() as int);
        assert(x.subrange(0, l) =~= pair_bytes(da));
        assert(x.subrange(0, l) =~= pair_bytes(db));
        assert(x.subrange(l, l + 32) =~= a.last().0);
        assert(x.subrange(l, l + 32) =~= b.last().0);
        assert(x.subrange(l + 32, l + 40) =~= le_bytes(a.last().1 as nat, 8));
        assert(x.subrange(l + 32, l + 40) =~= le_bytes(b.last().1 as nat, 8));
        lemma_le_bytes_injective(a.last().1 as nat, b.last().1 as nat, 8);
        lemma_pair_bytes_injective(da, db);
        assert(a =~= b) by {
            assert forall|i: int| 0 <= i < a.len() implies a[i] == b[i] by {
                if i < a.len() - 1 {
                    assert(a[i] == da[i] && b[i] == db[i]);
                }
            }
        }
    } else {
        assert(a.len() == 0 && b.len() == 0);
        assert(a =~= b);
    }
}

proof fn lemma_pair_bytes_len(s: Seq<(Seq<u8>, u64)>)
    requires
        forall|i: int| 0 <= i < s.len() ==> #[trigger] s[i].0.len() == 32,
    ensures
        pair_bytes(s).len() == 40 * s.len(),
    decreases s.len(),
{
    if s.len() > 0 {
        assert forall|i: int| 0 <= i < s.drop_last().len() implies #[trigger] s.drop_last()[i].0.len() == 32 by {
            assert(s.drop_last()[i] == s[i]);
        }
        lemma_pair_bytes_len(s.drop_last());
        lemma_byte_bounds();
        lemma_le_bytes_value(s.last().1 as nat, 8);
    }
}

proof fn lemma_validator_bytes_len(s: Seq<(Seq<u8>, Validator)>)
    requires
        forall|i: int| 0 <= i < s.len() ==> #[trigger] s[i].0.len() == 32,
    ensures
        validator_bytes(s).len() == 51 * s.len(),
    decreases s.len(),
{
    if s.len() > 0 {
        assert forall|i: int| 0 <= i < s.drop_last().len() implies #[trigger] s.drop_last()[i].0.len() == 32 by {
            assert(s.drop_last()[i] == s[i]);
        }
        lemma_validator_bytes_len(s.drop_last());
        lemma_byte_bounds();
        lemma_le_bytes_value(s.last().1.stake as nat, 8);
        lemma_le_bytes_value(s.last().1.jail_until as nat, 8);
    }
}

proof fn lemma_validator_bytes_injective(a: Seq<(Seq<u8>, Validator)>, b: Seq<(Seq<u8>, Validator)>)
    requires
        forall|i: int| 0 <= i < a.len() ==> #[trigger] a[i].0.len() == 32,
        forall|i: int| 0 <= i < b.len() ==> #[trigger] b[i].0.len() == 32,
        validator_bytes(a) == validator_bytes(b),
    ensures
        a.map_values(|e: (Seq<u8>, Validator)| sealed_validator(e)) == b.map_values(
            |e: (Seq<u8>, Validator)| sealed_validator(e),
        ),
    decreases a.len() + b.len(),
{
    lemma_byte_bounds();
    lemma_validator_bytes_len(a);
    lemma_validator_bytes_len(b);
    let ma = a.map_values(|e: (Seq<u8>, Validator)| sealed_validator(e));
    let mb = b.map_values(|e: (Seq<u8>, Validator)| sealed_validator(e));
    if a.len() > 0 && b.len() > 0 {
        let da = a.drop_last();
        let db = b.drop_last();
        lemma_validator_bytes_len(da);
        lemma_validator_bytes_len(db);
        let ea = a.last();
        let eb = b.last();
        lemma_le_bytes_value(ea.1.stake as nat, 8);
        lemma_le_bytes_value(eb.1.stake as nat, 8);
        lemma_le_bytes_value(ea.1.jail_until as nat, 8);
        lemma_le_bytes_value(eb.1.jail_until as nat, 8);
        let x = validator_bytes(a);
        let l: int = 51 * (da.len() as int);
        assert(x.subrange(0, l) =~= validator_bytes(da));
        assert(x.subrange(0, l) =~= validator_bytes(db));
        assert(x.subrange(l, l + 51) =~= validator_record(ea));
        assert(x.subrange(l, l + 51) =~= validator_record(eb));
        let ra = validator_record(ea);
        let rb = validator_record(eb);
        assert(ra.subrange(0, 32) =~= ea.0 && rb.subrange(0, 32) =~= eb.0);
        assert(ra.subrange(32, 40) =~= le_bytes(ea.1.stake as nat, 8));
        assert(rb.subrange(32, 40) =~= le_bytes(eb.1.stake as nat, 8));
        assert(ra.subrange(43, 51) =~= le_bytes(ea.1.jail_until as nat, 8));
        assert(rb.subrange(43, 51) =~= le_bytes(eb.1.jail_until as nat, 8));
        assert(ra[40] == flag_byte(ea.1.active) && rb[40] == flag_byte(eb.1.active));
        assert(ra[41] == flag_byte(ea.1.slashed) && rb[41] == flag_byte(eb.1.slashed));
        assert(ra[42] == flag_byte(ea.1.jailed) && rb[42] == flag_byte(eb.1.jailed));
        lemma_le_bytes_injective(ea.1.stake as nat, eb.1.stake as nat, 8);
        lemma_le_bytes_injective(ea.1.jail_until as nat, eb.1.jail_until as nat, 8);
        assert forall|i: int| 0 <= i < da.len() implies #[trigger] da[i].0.len() == 32 by {
            assert(da[i] == a[i]);
        }
        assert forall|i: int| 0 <= i < db.len() implies #[trigger] db[i].0.len() == 32 by {
            assert(db[i] == b[i]);
        }
        lemma_validator_bytes_injective(da, db);
        let mda = da.map_values(|e: (Seq<u8>, Validator)| sealed_validator(e));
        let mdb = db.map_values(|e: (Seq<u8>, Validator)| sealed_validator(e));
        assert(ma =~= mb) by {
            assert(ma.len() == mb.len());
            assert forall|i: int| 0 <= i < ma.len() implies ma[i] == mb[i] by {
                if i < ma.len() - 1 {
                    assert(ma[i] == mda[i] && mb[i] == mdb[i]);
                }
            }
        }
    } else {
        assert(a.len() == 0 && b.len() == 0);
        assert(ma =~= mb);
    }
}

/// The snapshot hash covers every sealed part: two snapshots that differ in
/// exactly one of height, block hash, chain id, balances, nonces, validator
/// addresses and sealed validator fields, finalized height or finalized hash
/// have different hash preimages, so tampering with one of them breaks
/// `verify` unless SHA3-256 collides. The creation time is not sealed:
/// changing it leaves the hash as it was.
pub proof fn law_snapshot_seal_covers_every_field(s: StateSnapshot, t: StateSnapshot, x: u128)
    requires
        sealed_differences(s, t) == 1,
    ensures
        snapshot_preimage(s) != snapshot_preimage(t),
        spec_snapshot_hash(StateSnapshot { created_at: x, ..s }) == spec_snapshot_hash(s),
{
    assert(snapshot_preimage(StateSnapshot { created_at: x, ..s }) =~= snapshot_preimage(s));
    if snapshot_preimage(s) == snapshot_preimage(t) {
        lemma_byte_bounds();
        lemma_snapshot_parts(s);
        lemma_snapshot_parts(t);
        let a = sealed_view(s);
        let b = sealed_view(t);
        let ps = snapshot_parts(s);
        let pt = snapshot_parts(t);
        assert(a.5 == b.5 ==> ps[5] == pt[5]) by {
            if a.5 == b.5 {
                lemma_validator_bytes_sealed(vals_view(s.validators@), vals_view(t.validators@));
            }
        }
        let k: int = if a.0 != b.0 { 0 } else if a.1 != b.1 { 1 } else if a.2 != b.2 { 2 } else if a.3 != b.3 {
            3
        } else if a.4 != b.4 { 4 } else if a.5 != b.5 { 5 } else if a.6 != b.6 { 6 } else { 7 };
        assert forall|i: int| 0 <= i < 8 && i != k implies ps[i] == pt[i] by {}
        lemma_flatten_cancel(ps, pt, k);
        lemma_snapshot_part_injective(s, t, k);
    }
}

/// Each part of the preimage determines its sealed field.
proof fn lemma_snapshot_part_injective(s: StateSnapshot, t: StateSnapshot, k: int)
    requires
        0 <= k < 8,
        snapshot_parts(s)[k] == snapshot_parts(t)[k],
    ensures
        k == 0 ==> sealed_view(s).0 == sealed_view(t).0,
        k == 1 ==> sealed_view(s).1 == sealed_view(t).1,
        k == 2 ==> sealed_view(s).2 == sealed_view(t).2,
        k == 3 ==> sealed_view(s).3 == sealed_view(t).3,
        k == 4 ==> sealed_view(s).4 == sealed_view(t).4,
        k == 5 ==> sealed_view(s).5 == sealed_view(t).5,
        k == 6 ==> sealed_view(s).6 == sealed_view(t).6,
        k == 7 ==> sealed_view(s).7 == sealed_view(t).7,
{
    lemma_byte_bounds();
    if k == 0 {
        lemma_le_bytes_injective(s.height as nat, t.height as nat, 8);
    } else if k == 1 {
        vstd::utf8::encode_utf8_decode_utf8(s.block_hash@);
        vstd::utf8::encode_utf8_decode_utf8(t.block_hash@);
    } else if k == 2 {
        lemma_le_bytes_injective(s.chain_id as nat, t.chain_id as nat, 8);
    } else if k == 3 {
        assert forall|i: int| 0 <= i < pairs_view(s.balances@).len() implies #[trigger] pairs_view(s.balances@)[i].0.len() == 32 by {}
        assert forall|i: int| 0 <= i < pairs_view(t.balances@).len() implies #[trigger] pairs_view(t.balances@)[i].0.len() == 32 by {}
        lemma_pair_bytes_injective(pairs_view(s.balances@), pairs_view(t.balances@));
    } else if k == 4 {
        assert forall|i: int| 0 <= i < pairs_view(s.nonces@).len() implies #[trigger] pairs_view(s.nonces@)[i].0.len() == 32 by {}
        assert forall|i: int| 0 <= i < pairs_view(t.nonces@).len() implies #[trigger] pairs_view(t.nonces@)[i].0.len() == 32 by {}
        lemma_pair_bytes_injective(pairs_view(s.nonces@), pairs_view(t.nonces@));
    } else if k == 5 {
        assert forall|i: int| 0 <= i < vals_view(s.validators@).len() implies #[trigger] vals_view(s.validators@)[i].0.len() == 32 by {}
        assert forall|i: int| 0 <= i < vals_view(t.validators@).len() implies #[trigger] vals_view(t.validators@)[i].0.len() == 32 by {}
        lemma_validator_bytes_injective(vals_view(s.validators@), vals_view(t.validators@));
    } else if k == 6 {
        lemma_le_bytes_injective(s.finalized_height as nat, t.finalized_height as nat, 8);
    } else {
        vstd::utf8::encode_utf8_decode_utf8(s.finalized_hash@);
        vstd::utf8::encode_utf8_decode_utf8(t.finalized_hash@);
    }
}

/// The bytes of `.json`.
pub open spec fn json_ext() -> Seq<u8> {
    seq![46u8, 106u8, 115u8, 111u8, 110u8]
}

/// The bytes of `snapshot_`.
pub open spec fn snapshot_stem_prefix() -> Seq<u8> {
    seq![115u8, 110u8, 97u8, 112u8, 115u8, 104u8, 111u8, 116u8, 95u8]
}

/// A file name with a `json` extension: a non-empty stem, then `.json`.
pub open spec fn is_json_file(n: Seq<u8>) -> bool {
    n.len() > 5 && n.subrange(n.len() - 5, n.len() as int) == json_ext()
}

/// The height in a `json` file name whose stem is `snapshot_<height>`.
pub open spec fn spec_snapshot_height(n: Seq<u8>) -> Option<u64> {
    let stem = n.subrange(0, n.len() - 5);
    if stem.len() >= 9 && stem.subrange(0, 9) == snapshot_stem_prefix() {
        spec_parse_u64(stem.subrange(9, stem.len() as int))
    } else {
        None
    }
}

/// The height snapshot files are ranked by: the height in the name, or 0.
pub open spec fn snapshot_rank(n: Seq<u8>) -> u64 {
    match spec_snapshot_height(n) {
        Some(h) => h,
        None => 0,
    }
}

pub open spec fn name_bytes(s: String) -> Seq<u8> {
    encode_utf8(s@)
}

/// Whether `name` is a `json` file name.
pub fn is_snapshot_file(name: &str) -> (r: bool)
    ensures
        r == is_json_file(name.spec_bytes()),
{
    let b: &[u8] = name.as_bytes();
    let n: usize = b.len();
    if n <= 5 {
        return false;
    }
    let r = b[n - 5] == 46 && b[n - 4] == 106 && b[n - 3] == 115 && b[n - 2] == 111 && b[n - 1] == 110;
    proof {
        if r {
            assert(b@.subrange(n - 5, n as int) =~= json_ext());
        } else {
            if b@.subrange(n - 5, n as int) == json_ext() {
                assert(b@.subrange(n - 5, n as int)[0] == b@[n - 5]);
                assert(b@.subrange(n - 5, n as int)[1] == b@[n - 4]);
                assert(b@.subrange(n - 5, n as int)[2] == b@[n - 3]);
                assert(b@.subrange(n - 5, n as int)[3] == b@[n - 2]);
                assert(b@.subrange(n - 5, n as int)[4] == b@[n - 1]);
            }
        }
    }
    r
}

/// The height named by a snapshot file `snapshot_<height>.json`; `None` for
/// other names.
pub fn snapshot_height(name: &str) -> (r: Option<u64>)
    ensures
        r == (if is_json_file(name.spec_bytes()) {
            spec_snapshot_height(name.spec_bytes())
        } else {
            None
        }),
{
    if !is_snapshot_file(name) {
        return None;
    }
    let b: &[u8] = name.as_bytes();
    let n: usize = b.len();
    let stem_len: usize = n - 5;
    let ghost stem = b@.subrange(0, stem_len as int);
    if stem_len < 9 {
        return None;
    }
    let pre = [115u8, 110u8, 97u8, 112u8, 115u8, 104u8, 111u8, 116u8, 95u8];
    let mut k: usize = 0;
    while k < 9
        invariant
            0 <= k <= 9,
            9 <= stem_len,
            stem_len + 5 == n,
            n == b@.len(),
            stem == b@.subrange(0, stem_len as int),
            b@ == name.spec_bytes(),
            is_json_file(b@),
            pre@ == snapshot_stem_prefix(),
            forall|j: int| 0 <= j < k ==> b@[j] == pre@[j],
        decreases 9 - k,
    {
        if b[k] != pre[k] {
            proof {
                if stem.subrange(0, 9) == snapshot_stem_prefix() {
                    assert(stem.subrange(0, 9)[k as int] == b@[k as int]);
                }
            }
            return None;
        }
        k = k + 1;
    }
    assert(stem.subrange(0, 9) =~= snapshot_stem_prefix());
    let mut digits: Vec<u8> = Vec::new();
    let mut i: usize = 9;
    while i < stem_len
        invariant
            9 <= i <= stem_len,
            stem_len + 5 == n,
            n == b@.len(),
            digits@ == b@.subrange(9, i as int),
        decreases stem_len - i,
    {
        digits.push(b[i]);
        i = i + 1;
        assert(digits@ =~= b@.subrange(9, i as int));
    }
    assert(stem.subrange(9, stem.len() as int) =~= digits@);
    parse_u64_bytes(digits.as_slice())
}

/// The snapshot file to load from a directory listing: among the `json`
/// files, the first of those ranked highest by the height in their name (a
/// name without one ranks as 0); `None` when there is no `json` file.
pub fn latest_snapshot_index(names: &Vec<String>) -> (r: Option<usize>)
    ensures
        r is None <==> forall|j: int| 0 <= j < names@.len() ==> !is_json_file(#[trigger] name_bytes(names@[j])),
        r matches Some(k) ==> {
            &&& k < names@.len()
            &&& is_json_file(name_bytes(names@[k as int]))
            &&& forall|j: int| 0 <= j < names@.len() && is_json_file(#[trigger] name_bytes(names@[j])) ==> snapshot_rank(
                name_bytes(names@[j]),
            ) <= snapshot_rank(name_bytes(names@[k as int]))
            &&& forall|j: int| 0 <= j < k && is_json_file(#[trigger] name_bytes(names@[j])) ==> snapshot_rank(
                name_bytes(names@[j]),
            ) < snapshot_rank(name_bytes(names@[k as int]))
        },
{
    let mut best: Option<usize> = None;
    let mut best_rank: u64 = 0;
    let mut i: usize = 0;
    while i < names.len()
        invariant
            0 <= i <= names@.len(),
            best is None <==> forall|j: int| 0 <= j < i ==> !is_json_file(#[trigger] name_bytes(names@[j])),
            best matches Some(k) ==> {
                &&& k < i
                &&& is_json_file(name_bytes(names@[k as int]))
                &&& best_rank == snapshot_rank(name_bytes(names@[k as int]))
                &&& forall|j: int| 0 <= j < i && is_json_file(#[trigger] name_bytes(names@[j])) ==> snapshot_rank(
                    name_bytes(names@[j]),
                ) <= best_rank
                &&& forall|j: int| 0 <= j < k && is_json_file(#[trigger] name_bytes(names@[j])) ==> snapshot_rank(
                    name_bytes(names@[j]),
                ) < best_rank
            },
        decreases names@.len() - i,
    {
        let name: &str = names[i].as_str();
        assert(name.spec_bytes() == name_bytes(names@[i as int]));
        if is_snapshot_file(name) {
            let rank: u64 = match snapshot_height(name) {
                Some(h) => h,
                None => 0,
            };
            match best {
                None => {
                    best = Some(i);
                    best_rank = rank;
                },
                Some(_) => {
                    if rank > best_rank {
                        best = Some(i);
                        best_rank = rank;
                    }
                },
            }
        }
        i = i + 1;
    }
    best
}

/// The file a snapshot at `height` is saved as.
pub fn snapshot_file_name(height: u64) -> (s: String)
    ensures
        s@ == "snapshot_"@ + spec_decimal(height as nat) + ".json"@,
{
    let mut s: String = "snapshot_".to_owned();
    s.append(decimal(height).as_str());
    s.append(".json");
    s
}

/// A snapshot saved at `height` is found again at `height`: its file name is
/// a `json` file name that gives back the height.
pub proof fn law_snapshot_name_gives_height(height: u64)
    ensures
        ({
            let n = encode_utf8("snapshot_"@ + spec_decimal(height as nat) + ".json"@);
            is_json_file(n) && spec_snapshot_height(n) == Some(height)
        }),
{
    reveal_strlit("snapshot_");
    reveal_strlit(".json");
    let d = spec_decimal(height as nat);
    let whole = "snapshot_"@ + d + ".json"@;
    lemma_decimal_digits(height as nat);
    lemma_decimal_bytes(height as nat);
    law_decimal_parses_back(height);
    assert(vstd::utf8::is_ascii_chars(whole)) by {
        assert forall|i: int| 0 <= i < whole.len() implies '\0' <= #[trigger] whole[i] <= '\u{7f}' by {
            if 9 <= i < 9 + d.len() {
                assert(whole[i] == d[i - 9]);
            }
        }
    }
    vstd::utf8::is_ascii_chars_encode_utf8(whole);
    let n = encode_utf8(whole);
    assert(n.subrange(n.len() - 5, n.len() as int) =~= json_ext());
    let stem = n.subrange(0, n.len() - 5);
    assert(stem.subrange(0, 9) =~= snapshot_stem_prefix());
    assert(stem.subrange(9, stem.len() as int) =~= ascii_bytes(d)) by {
        assert forall|i: int| 0 <= i < d.len() implies stem.subrange(9, stem.len() as int)[i] == #[trigger] ascii_bytes(d)[i] by {
            assert(whole[9 + i] == d[i]);
        }
    }
}

/// Schema version written by `StateSnapshotV2::from_state`.
pub const SNAPSHOT_SCHEMA_VERSION: u32 = 3;

/// The timed burn counter, burn reserve account and team vesting, always
/// captured and restored together so a restore can never burn twice.
#[derive(Debug, Clone, Copy)]
pub struct TokenomicsBurnSnapshot {
    pub timed_burn: TimedBurnState,
    pub burn_reserve_address: Option<Address>,
    pub team_vesting: Option<(Address, VestingSchedule)>,
}

/// Chain position a V2 snapshot is taken at.
#[derive(Debug, Clone)]
pub struct StateSnapshotV2Params {
    pub height: u64,
    pub block_hash: String,
    pub genesis_hash: String,
    pub chain_id: u64,
    pub finalized_height: u64,
    pub finalized_hash: String,
    /// Encoded finality certificates carried with the snapshot.
    pub finality_certificates: Vec<Vec<u8>>,
}

#[derive(Debug, Clone)]
pub struct StateSnapshotV2 {
    pub schema_version: u32,
    pub height: u64,
    pub block_hash: String,
    pub genesis_hash: String,
    pub chain_id: u64,
    pub created_at: u128,
    pub balances: Vec<(Address, u64)>,
    pub nonces: Vec<(Address, u64)>,
    pub finalized_height: u64,
    pub finalized_hash: String,
    pub validators: Vec<(Address, Validator)>,
    pub unbonding_queue: Vec<UnbondingEntry>,
    pub finality_certificates: Vec<Vec<u8>>,
    pub epoch_index: u64,
    pub last_epoch_time: u64,
    pub base_fee: u64,
    pub block_reward: u64,
    pub bridge_root: [u8; 32],
    pub message_root: [u8; 32],
    pub settlement_root: [u8; 32],
    pub global_header_summary: [u8; 32],
    pub tokenomics: TokenomicsParams,
    pub tokenomics_burn: Option<TokenomicsBurnSnapshot>,
    pub snapshot_hash: String,
}

/// What a V2 snapshot hash digests.
pub open spec fn snapshot_v2_preimage(s: StateSnapshotV2) -> Seq<u8> {
    le_bytes(s.schema_version as nat, 4) + le_bytes(s.height as nat, 8) + encode_utf8(s.block_hash@) + encode_utf8(
        s.genesis_hash@,
    ) + le_bytes(s.chain_id as nat, 8) + pair_bytes(pairs_view(s.balances@)) + pair_bytes(pairs_view(s.nonces@))
        + validator_bytes(vals_view(s.validators@)) + unbonding_bytes(s.unbonding_queue@) + le_bytes(
        s.finalized_height as nat,
        8,
    ) + encode_utf8(s.finalized_hash@) + le_bytes(s.epoch_index as nat, 8) + le_bytes(s.last_epoch_time as nat, 8)
        + le_bytes(s.base_fee as nat, 8) + le_bytes(s.block_reward as nat, 8) + s.bridge_root@ + s.message_root@
        + s.settlement_root@ + s.global_header_summary@
}

pub open spec fn spec_snapshot_v2_hash(s: StateSnapshotV2) -> Seq<char> {
    spec_hex_encode(spec_sha3_256(snapshot_v2_preimage(s)))
}

impl StateSnapshotV2 {
    /// Snapshot the full ledger (schema 3): accounts, validators, unbonding
    /// queue, consensus bookkeeping, tokenomics and the burn block together,
    /// sealed with the snapshot hash.
    pub fn from_state(account_state: &AccountState, params: StateSnapshotV2Params) -> (s: Self)
        requires
            account_state.wf(),
        ensures
            s.schema_version == SNAPSHOT_SCHEMA_VERSION,
            s.height == params.height,
            s.block_hash@ == params.block_hash@,
            s.genesis_hash@ == params.genesis_hash@,
            s.chain_id == params.chain_id,
            s.finalized_height == params.finalized_height,
            s.finalized_hash@ == params.finalized_hash@,
            s.finality_certificates@ == params.finality_certificates@,
            pairs_view(s.balances@) == balances_of(account_state.accounts@),
            pairs_view(s.nonces@) == nonces_of(account_state.accounts@),
            vals_view(s.validators@) == sorted_entries(account_state.validators@),
            s.unbonding_queue@ == account_state.unbonding_queue@,
            s.epoch_index == account_state.epoch_index,
            s.last_epoch_time == account_state.last_epoch_time,
            s.base_fee == account_state.base_fee,
            s.block_reward == account_state.tokenomics.block_reward,
            s.bridge_root == account_state.bridge_root,
            s.message_root == account_state.message_root,
            s.settlement_root == account_state.settlement_root,
            s.global_header_summary == account_state.global_header_summary,
            s.tokenomics == account_state.tokenomics,
            s.tokenomics_burn matches Some(b) && b.timed_burn == account_state.timed_burn
                && b.burn_reserve_address == account_state.burn_reserve_address
                && b.team_vesting == account_state.team_vesting,
            s.snapshot_hash@ == spec_snapshot_v2_hash(s),
            s.snapshot_hash@.len() == 64,
    {
        let created_at: u128 = unix_millis();
        let balances = account_state.get_all_balances();
        let nonces = account_state.get_all_nonces();
        let validators = account_state.get_all_validators();
        let mut unbonding_queue: Vec<UnbondingEntry> = Vec::new();
        let mut i: usize = 0;
        while i < account_state.unbonding_queue.len()
            invariant
                0 <= i <= account_state.unbonding_queue@.len(),
                unbonding_queue@ == account_state.unbonding_queue@.subrange(0, i as int),
            decreases account_state.unbonding_queue@.len() - i,
        {
            unbonding_queue.push(account_state.unbonding_queue[i]);
            i = i + 1;
            assert(unbonding_queue@ =~= account_state.unbonding_queue@.subrange(0, i as int));
        }
        assert(unbonding_queue@ =~= account_state.unbonding_queue@);
        let tokenomics_burn = Some(
            TokenomicsBurnSnapshot {
                timed_burn: account_state.timed_burn,
                burn_reserve_address: account_state.burn_reserve_address,
                team_vesting: account_state.team_vesting,
            },
        );
        let mut snapshot = StateSnapshotV2 {
            schema_version: SNAPSHOT_SCHEMA_VERSION,
            height: params.height,
            block_hash: params.block_hash,
            genesis_hash: params.genesis_hash,
            chain_id: params.chain_id,
            created_at,
            balances,
            nonces,
            finalized_height: params.finalized_height,
            finalized_hash: params.finalized_hash,
            validators,
            unbonding_queue,
            finality_certificates: params.finality_certificates,
            epoch_index: account_state.epoch_index,
            last_epoch_time: account_state.last_epoch_time,
            base_fee: account_state.base_fee,
            block_reward: account_state.tokenomics.block_reward,
            bridge_root: account_state.bridge_root,
            message_root: account_state.message_root,
            settlement_root: account_state.settlement_root,
            global_header_summary: account_state.global_header_summary,
            tokenomics: account_state.tokenomics,
            tokenomics_burn,
            snapshot_hash: String::new(),
        };
        snapshot.snapshot_hash = snapshot.calculate_hash();
        snapshot
    }

    fn calculate_hash(&self) -> (h: String)
        ensures
            h@ == spec_snapshot_v2_hash(*self),
            h@.len() == 64,
    {
        let mut buf: Vec<u8> = Vec::new();
        let sv = u32_le_bytes(self.schema_version);
        extend_bytes(&mut buf, sv.as_slice());
        let hb = u64_le_bytes(self.height);
        extend_bytes(&mut buf, hb.as_slice());
        append_str(&mut buf, &self.block_hash);
        append_str(&mut buf, &self.genesis_hash);
        let cb = u64_le_bytes(self.chain_id);
        extend_bytes(&mut buf, cb.as_slice());
        append_pairs(&mut buf, &self.balances);
        append_pairs(&mut buf, &self.nonces);
        append_validators(&mut buf, &self.validators);
        append_unbonding(&mut buf, &self.unbonding_queue);
        let fb = u64_le_bytes(self.finalized_height);
        extend_bytes(&mut buf, fb.as_slice());
        append_str(&mut buf, &self.finalized_hash);
        let eb = u64_le_bytes(self.epoch_index);
        extend_bytes(&mut buf, eb.as_slice());
        let lb = u64_le_bytes(self.last_epoch_time);
        extend_bytes(&mut buf, lb.as_slice());
        let bf = u64_le_bytes(self.base_fee);
        extend_bytes(&mut buf, bf.as_slice());
        let br = u64_le_bytes(self.block_reward);
        extend_bytes(&mut buf, br.as_slice());
        extend_bytes(&mut buf, &self.bridge_root);
        extend_bytes(&mut buf, &self.message_root);
        extend_bytes(&mut buf, &self.settlement_root);
        extend_bytes(&mut buf, &self.global_header_summary);
        assert(buf@ =~= snapshot_v2_preimage(*self));
        let digest = sha3_256(buf.as_slice());
        hex_encode(&digest)
    }

    /// Whether the stored hash matches the contents.
    pub fn verify(&self) -> (b: bool)
        ensures
            b == (self.snapshot_hash@ == spec_snapshot_v2_hash(*self)),
    {
        let h = self.calculate_hash();
        self.snapshot_hash == h
    }
}

} // verus!

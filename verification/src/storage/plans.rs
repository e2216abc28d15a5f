//! The batches that the block store writes: block commits (plain and
//! durable), the rollback of an interrupted durable commit, block deletion,
//! schema migration and index repair. Values are handed in already encoded.
use vstd::prelude::*;
use vstd::string::StringSliceAdditionalSpecFns;
use vstd::utf8::encode_utf8;
use crate::core_types::address::Address;
use crate::core_types::block::{Block, zero_hash_text};
use crate::core_types::transaction::{Transaction, spec_tx_hash};
use crate::core_types::numtext::{spec_parse_u64, law_decimal_parses_back};
use crate::storage::batch::{
    KvOp, writes, apply_writes, put, del, dec_bytes, height_key, state_root_key, finality_cert_key, qc_blob_key,
    tx_index_key, account_key, global_header_key, global_header_hash_key, last_key,
    canonical_height_key, in_progress_key, last_global_height_key, bridge_state_key,
    schema_version_key, text_bytes, numbered_key, named_key, decimal_bytes, account_key_bytes,
};

verus! {

/// The schema version this store layout writes.
pub const CURRENT_SCHEMA_VERSION: u64 = 1;

/// A settlement header, encoded, with the height and hash it is indexed by.
pub struct EncodedGlobalHeader {
    pub global_height: u64,
    pub hash: String,
    pub bytes: Vec<u8>,
}

/// Everything a durable commit writes, its values already encoded.
pub struct EncodedCommitBatch {
    pub block: Block,
    pub block_bytes: Vec<u8>,
    pub state_root: String,
    pub finality_cert: Option<Vec<u8>>,
    pub global_headers: Vec<EncodedGlobalHeader>,
    pub bridge_state: Option<Vec<u8>>,
    pub accounts: Vec<(Address, Vec<u8>)>,
}

pub open spec fn opt_bytes(o: Option<Vec<u8>>) -> Option<Seq<u8>> {
    match o {
        Some(v) => Some(v@),
        None => None,
    }
}

/// Each transaction indexed to the height of its block.
pub open spec fn tx_index_puts(txs: Seq<Transaction>, h: nat) -> Seq<(Seq<u8>, Option<Seq<u8>>)> {
    Seq::new(txs.len(), |j: int| put(tx_index_key(spec_tx_hash(txs[j])), dec_bytes(h)))
}

/// Each transaction's index removed.
pub open spec fn tx_index_deletes(txs: Seq<Transaction>) -> Seq<(Seq<u8>, Option<Seq<u8>>)> {
    Seq::new(txs.len(), |j: int| del(tx_index_key(spec_tx_hash(txs[j]))))
}

/// The block under its hash, and its height indexed to the hash.
pub open spec fn insert_block_writes(b: Block, bytes: Seq<u8>) -> Seq<(Seq<u8>, Option<Seq<u8>>)> {
    seq![put(b.hash@, bytes), put(height_key(b.index as nat), encode_utf8(b.hash@))]
}

/// A commit's first writes: block, height index, tip, state root and
/// canonical height.
pub open spec fn commit_head_writes(b: Block, bytes: Seq<u8>, root: Seq<char>) -> Seq<(Seq<u8>, Option<Seq<u8>>)> {
    seq![
        put(b.hash@, bytes),
        put(height_key(b.index as nat), encode_utf8(b.hash@)),
        put(last_key(), encode_utf8(b.hash@)),
        put(state_root_key(b.index as nat), encode_utf8(root)),
        put(canonical_height_key(), dec_bytes(b.index as nat)),
    ]
}

/// The writes of a plain block commit.
pub open spec fn commit_block_writes(b: Block, bytes: Seq<u8>, root: Seq<char>) -> Seq<(Seq<u8>, Option<Seq<u8>>)> {
    commit_head_writes(b, bytes, root) + tx_index_puts(b.transactions@, b.index as nat)
}

pub open spec fn cert_writes(h: nat, cert: Option<Vec<u8>>) -> Seq<(Seq<u8>, Option<Seq<u8>>)> {
    match cert {
        Some(c) => seq![put(finality_cert_key(h), c@)],
        None => Seq::empty(),
    }
}

/// One settlement header: by height, its hash to its height, and the latest
/// settlement height.
pub open spec fn header_writes(g: EncodedGlobalHeader) -> Seq<(Seq<u8>, Option<Seq<u8>>)> {
    seq![
        put(global_header_key(g.global_height as nat), g.bytes@),
        put(global_header_hash_key(g.hash@), dec_bytes(g.global_height as nat)),
        put(last_global_height_key(), dec_bytes(g.global_height as nat)),
    ]
}

pub open spec fn headers_writes(gs: Seq<EncodedGlobalHeader>) -> Seq<(Seq<u8>, Option<Seq<u8>>)>
    decreases gs.len(),
{
    if gs.len() == 0 {
        Seq::empty()
    } else {
        headers_writes(gs.drop_last()) + header_writes(gs.last())
    }
}

pub open spec fn bridge_writes(b: Option<Vec<u8>>) -> Seq<(Seq<u8>, Option<Seq<u8>>)> {
    match b {
        Some(v) => seq![put(bridge_state_key(), v@)],
        None => Seq::empty(),
    }
}

pub open spec fn account_writes(accts: Seq<(Address, Vec<u8>)>) -> Seq<(Seq<u8>, Option<Seq<u8>>)> {
    Seq::new(accts.len(), |j: int| put(account_key(accts[j].0), accts[j].1@))
}

/// The batch of a durable commit; it ends by clearing the in-progress marker.
pub open spec fn durable_commit_writes(c: EncodedCommitBatch) -> Seq<(Seq<u8>, Option<Seq<u8>>)> {
    commit_head_writes(c.block, c.block_bytes@, c.state_root@)
        + tx_index_puts(c.block.transactions@, c.block.index as nat)
        + cert_writes(c.block.index as nat, c.finality_cert)
        + headers_writes(c.global_headers@)
        + bridge_writes(c.bridge_state)
        + account_writes(c.accounts@)
        + seq![del(in_progress_key())]
}

/// The rollback of a durable commit interrupted at height `h`: the block found
/// there (with its transaction indexes) and everything indexed at `h` go, the
/// tip and canonical height return to `h - 1` (the tip to `prev`, the hash
/// indexed at `h - 1`), and the marker is cleared.
pub open spec fn recovery_writes(h: nat, blk: Option<Block>, prev: Option<Seq<u8>>) -> Seq<(Seq<u8>, Option<Seq<u8>>)> {
    (match blk {
        Some(b) => tx_index_deletes(b.transactions@).push(del(b.hash@)),
        None => Seq::empty(),
    }) + seq![del(height_key(h)), del(state_root_key(h)), del(finality_cert_key(h)), del(qc_blob_key(h))]
        + (if h > 0 {
        seq![
            match prev {
                Some(p) => (encode_utf8(last_key()), Some(p)),
                None => del(last_key()),
            },
            put(canonical_height_key(), dec_bytes((h - 1) as nat)),
        ]
    } else {
        seq![del(last_key()), del(canonical_height_key())]
    }) + seq![del(in_progress_key())]
}

/// Deleting the block at `h` (whose hash the height index gave as `hash_key`).
pub open spec fn delete_block_writes(h: nat, hash_key: Option<Seq<u8>>) -> Seq<(Seq<u8>, Option<Seq<u8>>)> {
    match hash_key {
        Some(k) => seq![
            (k, None),
            del(height_key(h)),
            del(state_root_key(h)),
            del(finality_cert_key(h)),
            del(qc_blob_key(h)),
        ],
        None => Seq::empty(),
    }
}

/// Re-indexing one block found on the walk back from the tip, given the
/// canonical height read before.
pub open spec fn repair_writes(b: Block, current: nat) -> Seq<(Seq<u8>, Option<Seq<u8>>)> {
    seq![
        put(height_key(b.index as nat), encode_utf8(b.hash@)),
        put(state_root_key(b.index as nat), encode_utf8(b.state_root@)),
    ] + tx_index_puts(b.transactions@, b.index as nat) + (if b.index == 0 {
        seq![put(canonical_height_key(), dec_bytes(0))]
    } else if b.index > current {
        seq![put(canonical_height_key(), dec_bytes(b.index as nat))]
    } else {
        Seq::empty()
    })
}

/// The walk back from the tip stops at a block whose parent is the zero hash
/// or empty.
pub open spec fn walk_continues(b: Block) -> bool {
    !(b.previous_hash@ == zero_hash_text() || b.previous_hash@.len() == 0)
}

fn push_op(ops: &mut Vec<KvOp>, op: KvOp)
    ensures
        writes(final(ops)@) == writes(old(ops)@).push(op@),
{
    let ghost before = ops@;
    let ghost w = op@;
    ops.push(op);
    assert(writes(ops@) =~= writes(before).push(w));
}

fn push_put(ops: &mut Vec<KvOp>, k: Vec<u8>, v: Vec<u8>)
    ensures
        writes(final(ops)@) == writes(old(ops)@).push((k@, Some(v@))),
{
    push_op(ops, KvOp::Put(k, v));
}

fn push_del(ops: &mut Vec<KvOp>, k: Vec<u8>)
    ensures
        writes(final(ops)@) == writes(old(ops)@).push((k@, None)),
{
    push_op(ops, KvOp::Delete(k));
}

fn push_tx_index_puts(ops: &mut Vec<KvOp>, txs: &Vec<Transaction>, h: u64)
    ensures
        writes(final(ops)@) == writes(old(ops)@) + tx_index_puts(txs@, h as nat),
{
    let ghost w0 = writes(ops@);
    let mut i: usize = 0;
    assert(tx_index_puts(txs@.subrange(0, 0), h as nat) =~= Seq::empty());
    assert(w0 + Seq::empty() =~= w0);
    while i < txs.len()
        invariant
            0 <= i <= txs@.len(),
            writes(ops@) == w0 + tx_index_puts(txs@.subrange(0, i as int), h as nat),
        decreases txs@.len() - i,
    {
        let th = txs[i].calculate_hash();
        let k = named_key("TX_IDX:", th.as_str());
        let v = decimal_bytes(h);
        push_put(ops, k, v);
        proof {
            assert(tx_index_puts(txs@.subrange(0, i + 1), h as nat) =~= tx_index_puts(
                txs@.subrange(0, i as int),
                h as nat,
            ).push(put(tx_index_key(spec_tx_hash(txs@[i as int])), dec_bytes(h as nat))));
        }
        i = i + 1;
    }
    assert(txs@.subrange(0, txs@.len() as int) =~= txs@);
}

fn push_tx_index_deletes(ops: &mut Vec<KvOp>, txs: &Vec<Transaction>)
    ensures
        writes(final(ops)@) == writes(old(ops)@) + tx_index_deletes(txs@),
{
    let ghost w0 = writes(ops@);
    let mut i: usize = 0;
    assert(tx_index_deletes(txs@.subrange(0, 0)) =~= Seq::empty());
    assert(w0 + Seq::empty() =~= w0);
    while i < txs.len()
        invariant
            0 <= i <= txs@.len(),
            writes(ops@) == w0 + tx_index_deletes(txs@.subrange(0, i as int)),
        decreases txs@.len() - i,
    {
        let th = txs[i].calculate_hash();
        let k = named_key("TX_IDX:", th.as_str());
        push_del(ops, k);
        proof {
            assert(tx_index_deletes(txs@.subrange(0, i + 1)) =~= tx_index_deletes(
                txs@.subrange(0, i as int),
            ).push(del(tx_index_key(spec_tx_hash(txs@[i as int])))));
        }
        i = i + 1;
    }
    assert(txs@.subrange(0, txs@.len() as int) =~= txs@);
}

/// The writes of `insert_block`: the block under its hash, and the height
/// index.
pub fn insert_block_ops(block: &Block, block_bytes: &[u8]) -> (ops: Vec<KvOp>)
    ensures
        writes(ops@) == insert_block_writes(*block, block_bytes@),
{
    let mut ops: Vec<KvOp> = Vec::new();
    let mut v: Vec<u8> = Vec::new();
    crate::core_types::hash::extend_bytes(&mut v, block_bytes);
    push_put(&mut ops, text_bytes(block.hash.as_str()), v);
    push_put(&mut ops, numbered_key("HEIGHT:", block.index), text_bytes(block.hash.as_str()));
    assert(writes(ops@) =~= insert_block_writes(*block, block_bytes@));
    ops
}

fn push_commit_head(ops: &mut Vec<KvOp>, block: &Block, block_bytes: &[u8], state_root: &str)
    ensures
        writes(final(ops)@) == writes(old(ops)@) + commit_head_writes(*block, block_bytes@, state_root@),
{
    let ghost w0 = writes(ops@);
    let mut v: Vec<u8> = Vec::new();
    crate::core_types::hash::extend_bytes(&mut v, block_bytes);
    push_put(ops, text_bytes(block.hash.as_str()), v);
    push_put(ops, numbered_key("HEIGHT:", block.index), text_bytes(block.hash.as_str()));
    push_put(ops, text_bytes("LAST"), text_bytes(block.hash.as_str()));
    push_put(ops, numbered_key("STATE_ROOT:", block.index), text_bytes(state_root));
    push_put(ops, text_bytes("CANONICAL_HEIGHT"), decimal_bytes(block.index));
    assert(writes(ops@) =~= w0 + commit_head_writes(*block, block_bytes@, state_root@));
}

/// The writes of `commit_block`: block, height index, tip, state root,
/// canonical height, then each transaction indexed to the block's height.
pub fn commit_block_ops(block: &Block, block_bytes: &[u8], state_root: &str) -> (ops: Vec<KvOp>)
    ensures
        writes(ops@) == commit_block_writes(*block, block_bytes@, state_root@),
{
    let mut ops: Vec<KvOp> = Vec::new();
    assert(writes(ops@) =~= Seq::empty());
    push_commit_head(&mut ops, block, block_bytes, state_root);
    push_tx_index_puts(&mut ops, &block.transactions, block.index);
    assert(writes(ops@) =~= commit_block_writes(*block, block_bytes@, state_root@));
    ops
}

/// The marker written (and made durable) before a durable commit's batch.
pub fn in_progress_marker(height: u64) -> (op: KvOp)
    ensures
        op@ == put(in_progress_key(), dec_bytes(height as nat)),
{
    KvOp::Put(text_bytes("IN_PROGRESS_HEIGHT"), decimal_bytes(height))
}

fn push_headers(ops: &mut Vec<KvOp>, gs: &Vec<EncodedGlobalHeader>)
    ensures
        writes(final(ops)@) == writes(old(ops)@) + headers_writes(gs@),
{
    let ghost w0 = writes(ops@);
    let mut i: usize = 0;
    assert(headers_writes(gs@.subrange(0, 0)) =~= Seq::empty());
    assert(w0 + Seq::empty() =~= w0);
    while i < gs.len()
        invariant
            0 <= i <= gs@.len(),
            writes(ops@) == w0 + headers_writes(gs@.subrange(0, i as int)),
        decreases gs@.len() - i,
    {
        let g = &gs[i];
        let mut v: Vec<u8> = Vec::new();
        crate::core_types::hash::extend_bytes(&mut v, g.bytes.as_slice());
        push_put(ops, numbered_key("GLOBAL_HEADER:", g.global_height), v);
        push_put(ops, named_key("GLOBAL_HEADER_HASH:", g.hash.as_str()), decimal_bytes(g.global_height));
        push_put(ops, text_bytes("LAST_GLOBAL_HEIGHT"), decimal_bytes(g.global_height));
        proof {
            let s1 = gs@.subrange(0, i + 1);
            assert(s1.drop_last() =~= gs@.subrange(0, i as int));
            assert(s1.last() == gs@[i as int]);
            assert(writes(ops@) =~= w0 + headers_writes(s1));
        }
        i = i + 1;
    }
    assert(gs@.subrange(0, gs@.len() as int) =~= gs@);
}

fn push_accounts(ops: &mut Vec<KvOp>, accts: &Vec<(Address, Vec<u8>)>)
    ensures
        writes(final(ops)@) == writes(old(ops)@) + account_writes(accts@),
{
    let ghost w0 = writes(ops@);
    let mut i: usize = 0;
    assert(account_writes(accts@.subrange(0, 0)) =~= Seq::empty());
    assert(w0 + Seq::empty() =~= w0);
    while i < accts.len()
        invariant
            0 <= i <= accts@.len(),
            writes(ops@) == w0 + account_writes(accts@.subrange(0, i as int)),
        decreases accts@.len() - i,
    {
        let e = &accts[i];
        let mut v: Vec<u8> = Vec::new();
        crate::core_types::hash::extend_bytes(&mut v, e.1.as_slice());
        push_put(ops, account_key_bytes(&e.0), v);
        proof {
            assert(account_writes(accts@.subrange(0, i + 1)) =~= account_writes(accts@.subrange(0, i as int)).push(
                put(account_key(accts@[i as int].0), accts@[i as int].1@),
            ));
        }
        i = i + 1;
    }
    assert(accts@.subrange(0, accts@.len() as int) =~= accts@);
}

/// The atomic batch of a durable commit: block, height index, tip, state
/// root, canonical height, transaction indexes, finality certificate,
/// settlement headers, bridge state and accounts, then the in-progress
/// marker cleared.
pub fn durable_commit_ops(c: &EncodedCommitBatch) -> (ops: Vec<KvOp>)
    ensures
        writes(ops@) == durable_commit_writes(*c),
{
    let mut ops: Vec<KvOp> = Vec::new();
    assert(writes(ops@) =~= Seq::empty());
    push_commit_head(&mut ops, &c.block, c.block_bytes.as_slice(), c.state_root.as_str());
    push_tx_index_puts(&mut ops, &c.block.transactions, c.block.index);
    let ghost w1 = writes(ops@);
    match &c.finality_cert {
        Some(cert) => {
            let mut v: Vec<u8> = Vec::new();
            crate::core_types::hash::extend_bytes(&mut v, cert.as_slice());
            push_put(&mut ops, numbered_key("FINALITY_CERT:", c.block.index), v);
        },
        None => {},
    }
    assert(writes(ops@) =~= w1 + cert_writes(c.block.index as nat, c.finality_cert));
    push_headers(&mut ops, &c.global_headers);
    let ghost w2 = writes(ops@);
    match &c.bridge_state {
        Some(b) => {
            let mut v: Vec<u8> = Vec::new();
            crate::core_types::hash::extend_bytes(&mut v, b.as_slice());
            push_put(&mut ops, text_bytes("BRIDGE_STATE"), v);
        },
        None => {},
    }
    assert(writes(ops@) =~= w2 + bridge_writes(c.bridge_state));
    push_accounts(&mut ops, &c.accounts);
    push_del(&mut ops, text_bytes("IN_PROGRESS_HEIGHT"));
    assert(writes(ops@) =~= durable_commit_writes(*c));
    ops
}

/// The rollback batch for a durable commit interrupted at `height`, given the
/// block stored at that height (if any) and the hash indexed at the height
/// below (if any).
pub fn recovery_ops(height: u64, block: Option<Block>, prev_tip: Option<Vec<u8>>) -> (ops: Vec<KvOp>)
    ensures
        writes(ops@) == recovery_writes(height as nat, block, opt_bytes(prev_tip)),
{
    let mut ops: Vec<KvOp> = Vec::new();
    assert(writes(ops@) =~= Seq::empty());
    match &block {
        Some(b) => {
            push_tx_index_deletes(&mut ops, &b.transactions);
            push_del(&mut ops, text_bytes(b.hash.as_str()));
        },
        None => {},
    }
    let ghost w1 = writes(ops@);
    push_del(&mut ops, numbered_key("HEIGHT:", height));
    push_del(&mut ops, numbered_key("STATE_ROOT:", height));
    push_del(&mut ops, numbered_key("FINALITY_CERT:", height));
    push_del(&mut ops, numbered_key("QC_BLOB:", height));
    let ghost w2 = writes(ops@);
    if height > 0 {
        match prev_tip {
            Some(p) => push_put(&mut ops, text_bytes("LAST"), p),
            None => push_del(&mut ops, text_bytes("LAST")),
        }
        push_put(&mut ops, text_bytes("CANONICAL_HEIGHT"), decimal_bytes(height - 1));
    } else {
        push_del(&mut ops, text_bytes("LAST"));
        push_del(&mut ops, text_bytes("CANONICAL_HEIGHT"));
    }
    push_del(&mut ops, text_bytes("IN_PROGRESS_HEIGHT"));
    assert(writes(ops@) =~= recovery_writes(height as nat, block, opt_bytes(prev_tip)));
    ops
}

/// The batch that deletes the block at `height`; nothing when no hash is
/// indexed there.
pub fn delete_block_ops(height: u64, hash_key: Option<Vec<u8>>) -> (ops: Vec<KvOp>)
    ensures
        writes(ops@) == delete_block_writes(height as nat, opt_bytes(hash_key)),
{
    let mut ops: Vec<KvOp> = Vec::new();
    match hash_key {
        Some(k) => {
            push_del(&mut ops, k);
            push_del(&mut ops, numbered_key("HEIGHT:", height));
            push_del(&mut ops, numbered_key("STATE_ROOT:", height));
            push_del(&mut ops, numbered_key("FINALITY_CERT:", height));
            push_del(&mut ops, numbered_key("QC_BLOB:", height));
        },
        None => {},
    }
    assert(writes(ops@) =~= delete_block_writes(height as nat, opt_bytes(hash_key)));
    ops
}

/// The schema migration: a store below the current version is stamped with
/// it; one at or above is left alone.
pub fn migration_ops(current: u64) -> (ops: Vec<KvOp>)
    ensures
        writes(ops@) == (if current < CURRENT_SCHEMA_VERSION {
            seq![put(schema_version_key(), dec_bytes(CURRENT_SCHEMA_VERSION as nat))]
        } else {
            Seq::empty()
        }),
{
    let mut ops: Vec<KvOp> = Vec::new();
    if current < CURRENT_SCHEMA_VERSION {
        push_put(&mut ops, text_bytes("SCHEMA_VERSION"), decimal_bytes(CURRENT_SCHEMA_VERSION));
    }
    assert(writes(ops@) =~= (if current < CURRENT_SCHEMA_VERSION {
        seq![put(schema_version_key(), dec_bytes(CURRENT_SCHEMA_VERSION as nat))]
    } else {
        Seq::empty()
    }));
    ops
}

/// One step of index repair: the writes for `block`, and whether the walk goes
/// on to its parent.
pub fn repair_index_ops(block: &Block, current_canonical: u64) -> (r: (Vec<KvOp>, bool))
    ensures
        writes(r.0@) == repair_writes(*block, current_canonical as nat),
        r.1 == walk_continues(*block),
{
    let mut ops: Vec<KvOp> = Vec::new();
    assert(writes(ops@) =~= Seq::empty());
    push_put(&mut ops, numbered_key("HEIGHT:", block.index), text_bytes(block.hash.as_str()));
    push_put(&mut ops, numbered_key("STATE_ROOT:", block.index), text_bytes(block.state_root.as_str()));
    push_tx_index_puts(&mut ops, &block.transactions, block.index);
    let ghost w1 = writes(ops@);
    if block.index == 0 {
        push_put(&mut ops, text_bytes("CANONICAL_HEIGHT"), decimal_bytes(0));
    } else if block.index > current_canonical {
        push_put(&mut ops, text_bytes("CANONICAL_HEIGHT"), decimal_bytes(block.index));
    }
    assert(writes(ops@) =~= repair_writes(*block, current_canonical as nat));
    let more = !(is_zero_hash_text(block.previous_hash.as_str()) || block.previous_hash.as_str().is_empty());
    (ops, more)
}

/// Whether `s` is sixty-four `'0'` characters.
pub fn is_zero_hash_text(s: &str) -> (r: bool)
    ensures
        r == (s@ == zero_hash_text()),
{
    let b: &[u8] = s.as_bytes();
    proof {
        vstd::utf8::encode_utf8_decode_utf8(s@);
    }
    if b.len() != 64 {
        proof {
            if s@ == zero_hash_text() {
                lemma_zero_text_bytes();
            }
        }
        return false;
    }
    let mut i: usize = 0;
    while i < 64
        invariant
            0 <= i <= 64,
            b@.len() == 64,
            b@ == encode_utf8(s@),
            forall|j: int| 0 <= j < i ==> b@[j] == 48u8,
        decreases 64 - i,
    {
        if b[i] != 48 {
            proof {
                if s@ == zero_hash_text() {
                    lemma_zero_text_bytes();
                }
            }
            return false;
        }
        i = i + 1;
    }
    proof {
        lemma_zero_text_bytes();
        assert(b@ =~= encode_utf8(zero_hash_text()));
        vstd::utf8::encode_utf8_decode_utf8(zero_hash_text());
    }
    true
}

/// The zero hash text is 64 bytes of ASCII `'0'`.
proof fn lemma_zero_text_bytes()
    ensures
        encode_utf8(zero_hash_text()) =~= Seq::new(64, |i: int| 48u8),
{
    broadcast use vstd::utf8::is_ascii_chars_encode_utf8;
    assert(vstd::utf8::is_ascii_chars(zero_hash_text()));
    assert(encode_utf8(zero_hash_text()) =~= Seq::new(zero_hash_text().len(), |i: int| zero_hash_text()[i] as u8));
}

/// Applying a batch in two parts is applying it whole.
pub proof fn lemma_apply_concat(
    s: Map<Seq<u8>, Seq<u8>>,
    a: Seq<(Seq<u8>, Option<Seq<u8>>)>,
    b: Seq<(Seq<u8>, Option<Seq<u8>>)>,
)
    ensures
        apply_writes(s, a + b) == apply_writes(apply_writes(s, a), b),
    decreases b.len(),
{
    if b.len() == 0 {
        assert(a + b =~= a);
    } else {
        lemma_apply_concat(s, a, b.drop_last());
        assert((a + b).drop_last() =~= a + b.drop_last());
        assert((a + b).last() == b.last());
    }
}

/// Writes to other keys leave a key as it was.
pub proof fn lemma_untouched(s: Map<Seq<u8>, Seq<u8>>, ws: Seq<(Seq<u8>, Option<Seq<u8>>)>, k: Seq<u8>)
    requires
        forall|j: int| 0 <= j < ws.len() ==> (#[trigger] ws[j]).0 != k,
    ensures
        apply_writes(s, ws).contains_key(k) == s.contains_key(k),
        s.contains_key(k) ==> apply_writes(s, ws)[k] == s[k],
    decreases ws.len(),
{
    if ws.len() > 0 {
        assert(ws.last() == ws[ws.len() - 1]);
        lemma_untouched(s, ws.drop_last(), k);
    }
}

/// Distinct key texts are distinct keys.
pub proof fn lemma_keys_differ(a: Seq<char>, b: Seq<char>)
    requires
        a != b,
    ensures
        encode_utf8(a) != encode_utf8(b),
{
    vstd::utf8::encode_utf8_decode_utf8(a);
    vstd::utf8::encode_utf8_decode_utf8(b);
}

/// A text key that no settlement header write uses.
proof fn lemma_headers_avoid(gs: Seq<EncodedGlobalHeader>, k: Seq<char>)
    requires
        k.len() > 0,
        k[0] != 'G',
        k != last_global_height_key(),
    ensures
        forall|j: int| 0 <= j < headers_writes(gs).len() ==> (#[trigger] headers_writes(gs)[j]).0 != encode_utf8(k),
    decreases gs.len(),
{
    reveal_strlit("GLOBAL_HEADER:");
    reveal_strlit("GLOBAL_HEADER_HASH:");
    if gs.len() > 0 {
        lemma_headers_avoid(gs.drop_last(), k);
        let g = gs.last();
        let pre = headers_writes(gs.drop_last());
        assert(global_header_key(g.global_height as nat)[0] == 'G');
        assert(global_header_hash_key(g.hash@)[0] == 'G');
        lemma_keys_differ(global_header_key(g.global_height as nat), k);
        lemma_keys_differ(global_header_hash_key(g.hash@), k);
        lemma_keys_differ(last_global_height_key(), k);
        assert forall|j: int| 0 <= j < headers_writes(gs).len() implies (#[trigger] headers_writes(gs)[j]).0 != encode_utf8(k) by {
            if j >= pre.len() {
                assert(headers_writes(gs)[j] == header_writes(g)[j - pre.len()]);
            } else {
                assert(headers_writes(gs)[j] == pre[j]);
            }
        }
    }
}

/// What a durable commit writes after its first five writes, up to (not
/// including) the clearing of the marker.
pub open spec fn durable_commit_tail(c: EncodedCommitBatch) -> Seq<(Seq<u8>, Option<Seq<u8>>)> {
    tx_index_puts(c.block.transactions@, c.block.index as nat)
        + cert_writes(c.block.index as nat, c.finality_cert)
        + headers_writes(c.global_headers@)
        + bridge_writes(c.bridge_state)
        + account_writes(c.accounts@)
}

/// The tail of a durable commit uses no key that starts with a letter other
/// than those of its own keys.
proof fn lemma_tail_avoids(c: EncodedCommitBatch, k: Seq<char>)
    requires
        k.len() > 0,
        k[0] != 'T',
        k[0] != 'F',
        k[0] != 'G',
        k[0] != 'B',
        k[0] != 'A',
        k != last_global_height_key(),
    ensures
        forall|j: int| 0 <= j < durable_commit_tail(c).len() ==> (#[trigger] durable_commit_tail(c)[j]).0 != encode_utf8(k),
{
    reveal_strlit("TX_IDX:");
    reveal_strlit("FINALITY_CERT:");
    reveal_strlit("BRIDGE_STATE");
    reveal_strlit("ACCT:");
    let txs = tx_index_puts(c.block.transactions@, c.block.index as nat);
    let cw = cert_writes(c.block.index as nat, c.finality_cert);
    let hw = headers_writes(c.global_headers@);
    let bw = bridge_writes(c.bridge_state);
    let aw = account_writes(c.accounts@);
    lemma_headers_avoid(c.global_headers@, k);
    assert forall|j: int| 0 <= j < txs.len() implies (#[trigger] txs[j]).0 != encode_utf8(k) by {
        let t = tx_index_key(spec_tx_hash(c.block.transactions@[j]));
        assert(t[0] == 'T');
        lemma_keys_differ(t, k);
    }
    assert forall|j: int| 0 <= j < cw.len() implies (#[trigger] cw[j]).0 != encode_utf8(k) by {
        let t = finality_cert_key(c.block.index as nat);
        assert(t[0] == 'F');
        lemma_keys_differ(t, k);
    }
    assert forall|j: int| 0 <= j < bw.len() implies (#[trigger] bw[j]).0 != encode_utf8(k) by {
        assert(bridge_state_key()[0] == 'B');
        lemma_keys_differ(bridge_state_key(), k);
    }
    assert forall|j: int| 0 <= j < aw.len() implies (#[trigger] aw[j]).0 != encode_utf8(k) by {
        let t = account_key(c.accounts@[j].0);
        assert(t[0] == 'A');
        lemma_keys_differ(t, k);
    }
    let tail = durable_commit_tail(c);
    assert forall|j: int| 0 <= j < tail.len() implies (#[trigger] tail[j]).0 != encode_utf8(k) by {
        let l1 = txs.len();
        let l2 = l1 + cw.len();
        let l3 = l2 + hw.len();
        let l4 = l3 + bw.len();
        if j < l1 {
            assert(tail[j] == txs[j]);
        } else if j < l2 {
            assert(tail[j] == cw[j - l1]);
        } else if j < l3 {
            assert(tail[j] == hw[j - l2]);
        } else if j < l4 {
            assert(tail[j] == bw[j - l3]);
        } else {
            assert(tail[j] == aw[j - l4]);
        }
    }
}

/// A durable commit leaves the store at the committed block: the tip and the
/// block's height index give its hash, its state root and height are
/// recorded, and the in-progress marker is gone, whatever the store held.
pub proof fn law_durable_commit_sets_tip(s: Map<Seq<u8>, Seq<u8>>, c: EncodedCommitBatch)
    ensures
        ({
            let t = apply_writes(s, durable_commit_writes(c));
            let i = c.block.index as nat;
            &&& t.contains_key(encode_utf8(last_key()))
            &&& t[encode_utf8(last_key())] == encode_utf8(c.block.hash@)
            &&& t.contains_key(encode_utf8(height_key(i)))
            &&& t[encode_utf8(height_key(i))] == encode_utf8(c.block.hash@)
            &&& t.contains_key(encode_utf8(state_root_key(i)))
            &&& t[encode_utf8(state_root_key(i))] == encode_utf8(c.state_root@)
            &&& t.contains_key(encode_utf8(canonical_height_key()))
            &&& t[encode_utf8(canonical_height_key())] == dec_bytes(i)
            &&& spec_parse_u64(t[encode_utf8(canonical_height_key())]) == Some(c.block.index)
            &&& !t.contains_key(encode_utf8(in_progress_key()))
        }),
{
    law_decimal_parses_back(c.block.index);
    reveal_strlit("LAST");
    reveal_strlit("HEIGHT:");
    reveal_strlit("STATE_ROOT:");
    reveal_strlit("CANONICAL_HEIGHT");
    reveal_strlit("IN_PROGRESS_HEIGHT");
    reveal_strlit("LAST_GLOBAL_HEIGHT");
    let i = c.block.index as nat;
    let head = commit_head_writes(c.block, c.block_bytes@, c.state_root@);
    let tail = durable_commit_tail(c);
    let fin: Seq<(Seq<u8>, Option<Seq<u8>>)> = seq![del(in_progress_key())];
    assert(durable_commit_writes(c) =~= head + tail + fin);
    lemma_apply_concat(s, head + tail, fin);
    lemma_apply_concat(s, head, tail);
    let hk = height_key(i);
    let sk = state_root_key(i);
    assert(hk[0] == 'H');
    assert(sk[0] == 'S');
    lemma_keys_differ(hk, last_key());
    lemma_keys_differ(hk, sk);
    lemma_keys_differ(hk, canonical_height_key());
    lemma_keys_differ(last_key(), sk);
    lemma_keys_differ(last_key(), canonical_height_key());
    lemma_keys_differ(sk, canonical_height_key());
    lemma_keys_differ(in_progress_key(), hk);
    lemma_keys_differ(in_progress_key(), sk);
    lemma_keys_differ(in_progress_key(), last_key());
    lemma_keys_differ(in_progress_key(), canonical_height_key());
    reveal_with_fuel(apply_writes, 6);
    let t0 = apply_writes(s, head);
    lemma_tail_avoids(c, last_key());
    lemma_tail_avoids(c, hk);
    lemma_tail_avoids(c, sk);
    lemma_tail_avoids(c, canonical_height_key());
    lemma_untouched(t0, tail, encode_utf8(last_key()));
    lemma_untouched(t0, tail, encode_utf8(hk));
    lemma_untouched(t0, tail, encode_utf8(sk));
    lemma_untouched(t0, tail, encode_utf8(canonical_height_key()));
}

/// Recovery from a durable commit interrupted at height `h` clears the
/// marker and everything indexed at `h`; above genesis it returns the
/// canonical height to `h - 1` and the tip to the hash the store indexed at
/// `h - 1` (no tip if none was); at genesis it leaves neither.
pub proof fn law_recovery_rolls_back(s: Map<Seq<u8>, Seq<u8>>, h: nat, blk: Option<Block>)
    ensures
        ({
            let pk = encode_utf8(height_key((h - 1) as nat));
            let prev = if h > 0 && s.contains_key(pk) {
                Some(s[pk])
            } else {
                None::<Seq<u8>>
            };
            let t = apply_writes(s, recovery_writes(h, blk, prev));
            &&& !t.contains_key(encode_utf8(in_progress_key()))
            &&& !t.contains_key(encode_utf8(height_key(h)))
            &&& !t.contains_key(encode_utf8(state_root_key(h)))
            &&& !t.contains_key(encode_utf8(finality_cert_key(h)))
            &&& !t.contains_key(encode_utf8(qc_blob_key(h)))
            &&& h > 0 ==> t.contains_key(encode_utf8(canonical_height_key()))
                && t[encode_utf8(canonical_height_key())] == dec_bytes((h - 1) as nat)
            &&& 0 < h <= u64::MAX + 1 ==> spec_parse_u64(t[encode_utf8(canonical_height_key())]) == Some((h - 1) as u64)
            &&& h > 0 && s.contains_key(pk) ==> t.contains_key(encode_utf8(last_key()))
                && t[encode_utf8(last_key())] == s[pk]
            &&& !(h > 0 && s.contains_key(pk)) ==> !t.contains_key(encode_utf8(last_key()))
            &&& h == 0 ==> !t.contains_key(encode_utf8(canonical_height_key()))
        }),
{
    reveal_strlit("LAST");
    reveal_strlit("HEIGHT:");
    reveal_strlit("STATE_ROOT:");
    reveal_strlit("FINALITY_CERT:");
    reveal_strlit("QC_BLOB:");
    reveal_strlit("CANONICAL_HEIGHT");
    reveal_strlit("IN_PROGRESS_HEIGHT");
    if 0 < h <= u64::MAX + 1 {
        law_decimal_parses_back((h - 1) as u64);
    }
    let pk = encode_utf8(height_key((h - 1) as nat));
    let prev = if h > 0 && s.contains_key(pk) {
        Some(s[pk])
    } else {
        None::<Seq<u8>>
    };
    let b: Seq<(Seq<u8>, Option<Seq<u8>>)> = match blk {
        Some(bl) => tx_index_deletes(bl.transactions@).push(del(bl.hash@)),
        None => Seq::empty(),
    };
    let d4: Seq<(Seq<u8>, Option<Seq<u8>>)> = seq![del(height_key(h)), del(state_root_key(h)), del(finality_cert_key(h)), del(qc_blob_key(h))];
    let p: Seq<(Seq<u8>, Option<Seq<u8>>)> = if h > 0 {
        seq![
            match prev {
                Some(pv) => (encode_utf8(last_key()), Some(pv)),
                None => del(last_key()),
            },
            put(canonical_height_key(), dec_bytes((h - 1) as nat)),
        ]
    } else {
        seq![del(last_key()), del(canonical_height_key())]
    };
    let m: Seq<(Seq<u8>, Option<Seq<u8>>)> = seq![del(in_progress_key())];
    assert(recovery_writes(h, blk, prev) =~= b + d4 + p + m);
    lemma_apply_concat(s, b + d4 + p, m);
    lemma_apply_concat(s, b + d4, p);
    lemma_apply_concat(s, b, d4);
    let hk = height_key(h);
    let sk = state_root_key(h);
    let fk = finality_cert_key(h);
    let qk = qc_blob_key(h);
    assert(hk[0] == 'H');
    assert(sk[0] == 'S');
    assert(fk[0] == 'F');
    assert(qk[0] == 'Q');
    lemma_keys_differ(hk, sk);
    lemma_keys_differ(hk, fk);
    lemma_keys_differ(hk, qk);
    lemma_keys_differ(sk, fk);
    lemma_keys_differ(sk, qk);
    lemma_keys_differ(hk, last_key());
    lemma_keys_differ(hk, canonical_height_key());
    lemma_keys_differ(sk, last_key());
    lemma_keys_differ(sk, canonical_height_key());
    lemma_keys_differ(fk, qk);
    lemma_keys_differ(fk, last_key());
    lemma_keys_differ(fk, canonical_height_key());
    lemma_keys_differ(qk, last_key());
    lemma_keys_differ(qk, canonical_height_key());
    lemma_keys_differ(last_key(), canonical_height_key());
    lemma_keys_differ(in_progress_key(), hk);
    lemma_keys_differ(in_progress_key(), sk);
    lemma_keys_differ(in_progress_key(), fk);
    lemma_keys_differ(in_progress_key(), qk);
    lemma_keys_differ(in_progress_key(), last_key());
    lemma_keys_differ(in_progress_key(), canonical_height_key());
    reveal_with_fuel(apply_writes, 5);
}

/// A repair step indexes the block it visits: its height gives its hash and
/// its state root is recorded, whatever the store held.
pub proof fn law_repair_indexes_block(s: Map<Seq<u8>, Seq<u8>>, b: Block, current: nat)
    ensures
        ({
            let t = apply_writes(s, repair_writes(b, current));
            &&& t.contains_key(encode_utf8(height_key(b.index as nat)))
            &&& t[encode_utf8(height_key(b.index as nat))] == encode_utf8(b.hash@)
            &&& t.contains_key(encode_utf8(state_root_key(b.index as nat)))
            &&& t[encode_utf8(state_root_key(b.index as nat))] == encode_utf8(b.state_root@)
        }),
{
    reveal_strlit("HEIGHT:");
    reveal_strlit("STATE_ROOT:");
    reveal_strlit("TX_IDX:");
    reveal_strlit("CANONICAL_HEIGHT");
    let hk = height_key(b.index as nat);
    let sk = state_root_key(b.index as nat);
    let two: Seq<(Seq<u8>, Option<Seq<u8>>)> = seq![
        put(hk, encode_utf8(b.hash@)),
        put(sk, encode_utf8(b.state_root@)),
    ];
    let txs = tx_index_puts(b.transactions@, b.index as nat);
    let canon: Seq<(Seq<u8>, Option<Seq<u8>>)> = if b.index == 0 {
        seq![put(canonical_height_key(), dec_bytes(0))]
    } else if b.index > current {
        seq![put(canonical_height_key(), dec_bytes(b.index as nat))]
    } else {
        Seq::empty()
    };
    let rest = txs + canon;
    assert(repair_writes(b, current) =~= two + rest);
    lemma_apply_concat(s, two, rest);
    assert(hk[0] == 'H');
    assert(sk[0] == 'S');
    assert(canonical_height_key()[0] == 'C');
    lemma_keys_differ(hk, sk);
    lemma_keys_differ(hk, canonical_height_key());
    lemma_keys_differ(sk, canonical_height_key());
    assert forall|j: int| 0 <= j < rest.len() implies (#[trigger] rest[j]).0 != encode_utf8(hk) && rest[j].0
        != encode_utf8(sk) by {
        if j < txs.len() {
            let t = tx_index_key(spec_tx_hash(b.transactions@[j]));
            assert(t[0] == 'T');
            lemma_keys_differ(t, hk);
            lemma_keys_differ(t, sk);
            assert(rest[j] == txs[j]);
        } else {
            assert(rest[j] == canon[j - txs.len()]);
        }
    }
    reveal_with_fuel(apply_writes, 3);
    let t0 = apply_writes(s, two);
    lemma_untouched(t0, rest, encode_utf8(hk));
    lemma_untouched(t0, rest, encode_utf8(sk));
}

} // verus!

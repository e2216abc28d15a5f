use budlum_core::core_types::address::Address;
use budlum_core::core_types::block::Block;
use budlum_core::core_types::numtext::parse_u64_or_zero;
use budlum_core::storage::audit::{audit_chain, BlockLookup};
use budlum_core::storage::batch::{
    account_from_key, account_key_bytes, decimal_bytes, numbered_key, parse_seen_key, seen_key,
    text_bytes, KvOp,
};
use budlum_core::storage::plans::{
    commit_block_ops, delete_block_ops, durable_commit_ops, in_progress_marker, insert_block_ops,
    is_zero_hash_text, migration_ops, recovery_ops, repair_index_ops, EncodedCommitBatch,
    EncodedGlobalHeader,
};
use std::collections::BTreeMap;

type Store = BTreeMap<Vec<u8>, Vec<u8>>;

fn apply(store: &mut Store, ops: Vec<KvOp>) {
    for op in ops {
        match op {
            KvOp::Put(k, v) => {
                store.insert(k, v);
            }
            KvOp::Delete(k) => {
                store.remove(&k);
            }
        }
    }
}

fn get_text(store: &Store, key: &str) -> Option<String> {
    store
        .get(key.as_bytes())
        .map(|v| String::from_utf8(v.clone()).unwrap())
}

/// Blocks are kept by the test beside the store, which holds their hash
/// under `HEIGHT:<h>` and stand-in bytes under the hash.
fn block_by_height(store: &Store, blocks: &BTreeMap<String, Block>, h: u64) -> Option<Block> {
    let hash = get_text(store, &format!("HEIGHT:{}", h))?;
    if !store.contains_key(hash.as_bytes()) {
        return None;
    }
    blocks.get(&hash).cloned()
}

fn sealed_block(index: u64, prev: String) -> Block {
    let mut block = Block::new(index, prev, vec![]);
    block.hash = block.calculate_hash();
    block
}

fn recover(store: &mut Store, blocks: &BTreeMap<String, Block>) {
    if let Some(marker) = get_text(store, "IN_PROGRESS_HEIGHT") {
        let height = parse_u64_or_zero(&marker);
        let block = block_by_height(store, blocks, height);
        let prev = if height > 0 {
            store.get(format!("HEIGHT:{}", height - 1).as_bytes()).cloned()
        } else {
            None
        };
        apply(store, recovery_ops(height, block, prev));
    }
}

#[test]
fn test_durable_commit_batch_and_recovery() {
    let mut store: Store = BTreeMap::new();
    let mut blocks: BTreeMap<String, Block> = BTreeMap::new();

    let block = sealed_block(1, "0".repeat(64));
    blocks.insert(block.hash.clone(), block.clone());
    let addr = Address::from_hex(&"01".repeat(32)).unwrap();
    let account_bytes = 500u64.to_le_bytes().to_vec();

    let batch = EncodedCommitBatch {
        block: block.clone(),
        block_bytes: block.hash.as_bytes().to_vec(),
        state_root: "dummy_state_root".to_string(),
        finality_cert: None,
        global_headers: vec![],
        bridge_state: None,
        accounts: vec![(addr, account_bytes)],
    };
    apply(&mut store, vec![in_progress_marker(block.index)]);
    apply(&mut store, durable_commit_ops(&batch));

    let loaded = block_by_height(&store, &blocks, 1).unwrap();
    assert_eq!(loaded.hash, block.hash);

    let mut balances: BTreeMap<[u8; 32], u64> = BTreeMap::new();
    for (k, v) in store.iter() {
        if k.starts_with(b"ACCT:") {
            let key = std::str::from_utf8(k).unwrap();
            let a = account_from_key(key).unwrap();
            let mut b = [0u8; 8];
            b.copy_from_slice(v);
            balances.insert(a.0, u64::from_le_bytes(b));
        }
    }
    assert_eq!(*balances.get(&addr.0).unwrap(), 500);

    // An interrupted commit at height 2.
    store.insert(b"IN_PROGRESS_HEIGHT".to_vec(), b"2".to_vec());
    let block2 = sealed_block(2, block.hash.clone());
    blocks.insert(block2.hash.clone(), block2.clone());
    store.insert(block2.hash.as_bytes().to_vec(), block2.hash.as_bytes().to_vec());
    store.insert(b"HEIGHT:2".to_vec(), block2.hash.as_bytes().to_vec());
    store.insert(b"STATE_ROOT:2".to_vec(), b"half_state".to_vec());
    store.insert(b"LAST".to_vec(), block2.hash.as_bytes().to_vec());
    store.insert(b"CANONICAL_HEIGHT".to_vec(), b"2".to_vec());

    recover(&mut store, &blocks);

    assert!(store.get(b"IN_PROGRESS_HEIGHT".as_slice()).is_none());
    assert!(block_by_height(&store, &blocks, 2).is_none());
    assert_eq!(parse_u64_or_zero(&get_text(&store, "CANONICAL_HEIGHT").unwrap()), 1);
    assert_eq!(get_text(&store, "LAST").unwrap(), block.hash);
}

#[test]
fn test_db_repair_index() {
    let mut store: Store = BTreeMap::new();
    let mut blocks: BTreeMap<String, Block> = BTreeMap::new();

    let block = sealed_block(1, "prev_hash".to_string());
    blocks.insert(block.hash.clone(), block.clone());
    apply(
        &mut store,
        commit_block_ops(&block, block.hash.as_bytes(), "state_root_1"),
    );
    assert!(block_by_height(&store, &blocks, 1).is_some());

    let height_key = format!("HEIGHT:{}", 1);
    store.remove(height_key.as_bytes());
    assert!(block_by_height(&store, &blocks, 1).is_none());

    // Walk back from the tip, re-indexing each block found.
    let mut current = get_text(&store, "LAST").unwrap();
    while let Some(b) = blocks.get(&current).cloned() {
        if !store.contains_key(current.as_bytes()) {
            break;
        }
        let canonical = get_text(&store, "CANONICAL_HEIGHT")
            .map(|s| parse_u64_or_zero(&s))
            .unwrap_or(0);
        let (ops, more) = repair_index_ops(&b, canonical);
        apply(&mut store, ops);
        if !more {
            break;
        }
        current = b.previous_hash.clone();
    }

    assert!(block_by_height(&store, &blocks, 1).is_some());
    assert_eq!(block_by_height(&store, &blocks, 1).unwrap().hash, block.hash);
}

#[test]
fn durable_commit_sets_tip_and_clears_marker() {
    let mut store: Store = BTreeMap::new();
    let block = sealed_block(7, "0".repeat(64));
    let batch = EncodedCommitBatch {
        block: block.clone(),
        block_bytes: vec![1, 2, 3],
        state_root: "root7".to_string(),
        finality_cert: Some(vec![9]),
        global_headers: vec![EncodedGlobalHeader {
            global_height: 3,
            hash: "gh".to_string(),
            bytes: vec![4],
        }],
        bridge_state: Some(vec![5]),
        accounts: vec![],
    };
    apply(&mut store, vec![in_progress_marker(7)]);
    assert_eq!(get_text(&store, "IN_PROGRESS_HEIGHT").unwrap(), "7");
    apply(&mut store, durable_commit_ops(&batch));
    assert_eq!(get_text(&store, "LAST").unwrap(), block.hash);
    assert_eq!(get_text(&store, "HEIGHT:7").unwrap(), block.hash);
    assert_eq!(get_text(&store, "STATE_ROOT:7").unwrap(), "root7");
    assert_eq!(get_text(&store, "CANONICAL_HEIGHT").unwrap(), "7");
    assert_eq!(store.get(b"FINALITY_CERT:7".as_slice()).unwrap(), &vec![9u8]);
    assert_eq!(store.get(b"GLOBAL_HEADER:3".as_slice()).unwrap(), &vec![4u8]);
    assert_eq!(get_text(&store, "GLOBAL_HEADER_HASH:gh").unwrap(), "3");
    assert_eq!(get_text(&store, "LAST_GLOBAL_HEIGHT").unwrap(), "3");
    assert_eq!(store.get(b"BRIDGE_STATE".as_slice()).unwrap(), &vec![5u8]);
    assert_eq!(store.get(block.hash.as_bytes()).unwrap(), &vec![1u8, 2, 3]);
    assert!(store.get(b"IN_PROGRESS_HEIGHT".as_slice()).is_none());
}

#[test]
fn recovery_at_genesis_clears_tip_and_height() {
    let mut store: Store = BTreeMap::new();
    store.insert(b"LAST".to_vec(), b"x".to_vec());
    store.insert(b"CANONICAL_HEIGHT".to_vec(), b"0".to_vec());
    store.insert(b"IN_PROGRESS_HEIGHT".to_vec(), b"0".to_vec());
    apply(&mut store, recovery_ops(0, None, None));
    assert!(store.is_empty());
}

#[test]
fn recovery_without_previous_index_drops_tip() {
    let mut store: Store = BTreeMap::new();
    store.insert(b"LAST".to_vec(), b"x".to_vec());
    apply(&mut store, recovery_ops(5, None, None));
    assert!(store.get(b"LAST".as_slice()).is_none());
    assert_eq!(get_text(&store, "CANONICAL_HEIGHT").unwrap(), "4");
}

#[test]
fn insert_and_delete_block() {
    let mut store: Store = BTreeMap::new();
    let block = sealed_block(3, "p".to_string());
    apply(&mut store, insert_block_ops(&block, &[7, 7]));
    assert_eq!(get_text(&store, "HEIGHT:3").unwrap(), block.hash);
    assert_eq!(store.len(), 2);
    store.insert(b"STATE_ROOT:3".to_vec(), b"r".to_vec());
    let hash_key = store.get(b"HEIGHT:3".as_slice()).cloned();
    apply(&mut store, delete_block_ops(3, hash_key));
    assert!(store.is_empty());
    assert!(delete_block_ops(3, None).is_empty());
}

#[test]
fn migration_stamps_old_stores_only() {
    let ops = migration_ops(0);
    assert_eq!(ops.len(), 1);
    match &ops[0] {
        KvOp::Put(k, v) => {
            assert_eq!(k.as_slice(), b"SCHEMA_VERSION");
            assert_eq!(v.as_slice(), b"1");
        }
        KvOp::Delete(_) => panic!("expected a write"),
    }
    assert!(migration_ops(1).is_empty());
    assert!(migration_ops(2).is_empty());
}

#[test]
fn repair_sets_canonical_height() {
    let genesis = sealed_block(0, "0".repeat(64));
    let (ops, more) = repair_index_ops(&genesis, 9);
    assert!(!more);
    let mut store: Store = BTreeMap::new();
    apply(&mut store, ops);
    assert_eq!(get_text(&store, "CANONICAL_HEIGHT").unwrap(), "0");

    let b5 = sealed_block(5, "abc".to_string());
    let (ops, more) = repair_index_ops(&b5, 2);
    assert!(more);
    apply(&mut store, ops);
    assert_eq!(get_text(&store, "CANONICAL_HEIGHT").unwrap(), "5");
    let (ops, _) = repair_index_ops(&sealed_block(4, "abc".to_string()), 5);
    apply(&mut store, ops);
    assert_eq!(get_text(&store, "CANONICAL_HEIGHT").unwrap(), "5");

    let (_, more) = repair_index_ops(&sealed_block(6, String::new()), 0);
    assert!(!more);
}

#[test]
fn keys_have_their_layout() {
    assert_eq!(numbered_key("HEIGHT:", 42), b"HEIGHT:42".to_vec());
    assert_eq!(text_bytes("LAST"), b"LAST".to_vec());
    assert_eq!(decimal_bytes(0), b"0".to_vec());
    let a = Address([0xab; 32]);
    let k = account_key_bytes(&a);
    assert_eq!(k, format!("ACCT:{}", "ab".repeat(32)).into_bytes());
    let back = account_from_key(std::str::from_utf8(&k).unwrap()).unwrap();
    assert_eq!(back.0, a.0);
    // A key without the prefix is read whole.
    assert_eq!(account_from_key(&"cd".repeat(32)).unwrap().0, [0xcd; 32]);
    assert!(account_from_key("ACCT:zz").is_err());
    assert_eq!(
        account_from_key("ACCT:abcd").unwrap_err(),
        "Address must be 32 bytes"
    );
}

#[test]
fn seen_keys_read_back() {
    let a = Address([0x11; 32]);
    let k = seen_key(Some(a), 12);
    let text = String::from_utf8(k).unwrap();
    assert_eq!(text, format!("SEEN:{}:12", "11".repeat(32)));
    let (p, i) = parse_seen_key(&text).unwrap().unwrap();
    assert_eq!(p.0, a.0);
    assert_eq!(i, 12);

    let unknown = String::from_utf8(seen_key(None, 3)).unwrap();
    assert_eq!(unknown, "SEEN:unknown:3");
    assert!(parse_seen_key(&unknown).is_err());

    assert!(parse_seen_key("SEEN:a:b:c").unwrap().is_none());
    assert!(parse_seen_key("SEEN:nocolon").unwrap().is_none());
    let (_, idx) = parse_seen_key(&format!("{}:x", "22".repeat(32))).unwrap().unwrap();
    assert_eq!(idx, 0);
}

#[test]
fn zero_hash_text_is_recognised() {
    assert!(is_zero_hash_text(&"0".repeat(64)));
    assert!(!is_zero_hash_text(&"0".repeat(63)));
    assert!(!is_zero_hash_text(&format!("{}1", "0".repeat(63))));
}

#[test]
fn audit_of_intact_chain_is_clean() {
    let g = sealed_block(0, "0".repeat(64));
    let b1 = sealed_block(1, g.hash.clone());
    let b2 = sealed_block(2, b1.hash.clone());
    let lookups = vec![
        BlockLookup::Found(g),
        BlockLookup::Found(b1),
        BlockLookup::Found(b2),
    ];
    assert!(audit_chain(&lookups).is_empty());
}

#[test]
fn audit_reports_each_fault() {
    let g = sealed_block(0, "0".repeat(64));
    let mut bad = sealed_block(1, "elsewhere".to_string());
    let calc = bad.hash.clone();
    bad.hash = "stored".to_string();
    let lookups = vec![
        BlockLookup::Found(g.clone()),
        BlockLookup::Found(bad),
        BlockLookup::Missing,
        BlockLookup::ReadError("disk".to_string()),
    ];
    let errors = audit_chain(&lookups);
    assert_eq!(
        errors,
        vec![
            format!("Block 1: hash mismatch (stored: stored, calc: {})", calc),
            format!(
                "Block 1: linkage error (expected prev: {}, got: elsewhere)",
                g.hash
            ),
            "Block 2: missing in index".to_string(),
            "Block 3: read error: disk".to_string(),
        ]
    );
}

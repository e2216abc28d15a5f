use budlum_core::core_types::address::ContentId;
use budlum_core::core_types::block::Block;
use budlum_core::core_types::merkle::hash_pair;
use sha3::Digest;

#[test]
fn content_id_is_sha256_of_the_bytes() {
    let c = ContentId::of(&[]);
    assert_eq!(
        c.0.to_vec(),
        hex::decode("e3b0c44298fc1c149afbf4c8996fb92427ae41e4649b934ca495991b7852b855").unwrap()
    );
    let abc = ContentId::of(b"abc");
    assert_eq!(
        abc.0.to_vec(),
        hex::decode("ba7816bf8f01cfea414140de5dae2223b00361a396177a9cb410ff61f20015ad").unwrap()
    );
}

#[test]
fn merkle_pair_hash_is_sha256_of_both() {
    let a = [1u8; 32];
    let b = [2u8; 32];
    let mut joined = a.to_vec();
    joined.extend_from_slice(&b);
    let expected = sha2::Sha256::digest(&joined);
    assert_eq!(hash_pair(&a, &b).to_vec(), expected.to_vec());
    assert_ne!(hash_pair(&a, &b), hash_pair(&b, &a));
}

fn frame(fields: &[&[u8]]) -> Vec<u8> {
    let mut out = Vec::new();
    for f in fields {
        out.extend_from_slice(&(f.len() as u64).to_le_bytes());
        out.extend_from_slice(f);
    }
    out
}

#[test]
fn block_hash_is_sha3_of_its_framed_header() {
    let mut block = Block::new(3, "prev".to_string(), vec![]);
    block.timestamp = 77;
    let framed = frame(&[
        b"BDLM_BLOCK_V1",
        &3u64.to_le_bytes(),
        &77u128.to_le_bytes(),
        b"prev",
        b"",
        b"",
        &0u64.to_le_bytes(),
        b"",
        &1337u64.to_le_bytes(),
        &0u64.to_le_bytes(),
        &0u64.to_le_bytes(),
        b"",
        b"",
    ]);
    let expected = hex::encode(sha3::Sha3_256::digest(&framed));
    assert_eq!(block.calculate_hash(), expected);
}

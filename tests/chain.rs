use bls_signatures::{PrivateKey, Serialize};
use padlock::block::{Block, MempoolEntry};
use padlock::chain::{
    total_block_time, Blockchain, BlockchainInfo, Limits, Measures, WindowSample, RANDOMX_VM_KEY_LIFETIME,
};
use padlock::entry::Entry;
use padlock::error::BlockchainErrorKind;
use padlock::header::BlockHeader;
use padlock::keys::KeyType;
use padlock::store::KvStore;

const BLOCK_TIME: f32 = 120.0;

fn retarget(w: Vec<WindowSample>) -> Limits {
    let n = w.len() as f32;
    let avg_target = w.iter().map(|s| f32::from_bits(s.difficulty_target) as u128).sum::<u128>() as f32 / n;
    let avg_entry = w.iter().map(|s| f32::from_bits(s.entry_difficulty) as u128).sum::<u128>() as f32 / n;
    let avg_time = total_block_time(&w) as f32 / n;
    Limits {
        difficulty: (avg_target / avg_time * BLOCK_TIME).to_bits(),
        entry_difficulty_multiplier: (avg_target * 0.05 / avg_entry).to_bits(),
        max_allowed_entry_difficulty: (avg_entry * 1.5).to_bits(),
    }
}

fn signed_entry(seed: u8, salt: u8) -> MempoolEntry {
    let sk = PrivateKey::new([seed; 32]);
    let entry = Entry::new(vec![[salt; 8]], [seed; 8], Some(sk.public_key().as_bytes()), None, vec![salt]);
    let sig = sk.sign(entry.to_bytes().unwrap()).as_bytes();
    MempoolEntry::new(entry, sig)
}

fn entry_difficulty(entries: &[MempoolEntry], max_bits: u32) -> u32 {
    let mut total = 0f32;
    for e in entries {
        total += e.entry.difficulty().unwrap() as f32;
    }
    let max = f32::from_bits(max_bits);
    if total > max {
        total = max;
    }
    total.to_bits()
}

fn block_hash(salt: u8) -> [u8; 32] {
    let mut h = [salt; 32];
    h[0] = 0;
    h[1] = 0;
    h[2] = 0x01;
    h
}

fn mine(chain: &Blockchain, timestamp: u64, salt: u8) -> (Block, Measures) {
    let info = &chain.info;
    let entries = vec![signed_entry(1, salt), signed_entry(2, salt.wrapping_add(100))];
    let ed = entry_difficulty(&entries, info.max_allowed_entry_difficulty);
    let hash = block_hash(salt);
    let block = Block::new(
        info.top_block_hash,
        info.height + 1,
        entries,
        vec![salt],
        timestamp,
        info.difficulty,
        ed,
        info.entry_difficulty_multiplier,
        info.max_allowed_entry_difficulty,
        [0u8; 32],
        hash,
    )
    .unwrap();
    let work = block.miner_difficulty() as f32
        + f32::from_bits(ed) * f32::from_bits(info.entry_difficulty_multiplier);
    (block, Measures { block_difficulty: work.to_bits(), entry_difficulty: ed, pow_hash: hash })
}

fn envelope() -> Vec<u8> {
    vec![0xeeu8; 100]
}

fn grow(chain: &mut Blockchain, count: u8, start: u64) {
    for i in 0..count {
        let (block, m) = mine(chain, start + 120 * i as u64, i + 1);
        chain.add_block(&block, envelope(), &m, &retarget).unwrap();
    }
}

#[test]
fn first_block_append() {
    let mut chain = Blockchain::new(1_000);
    assert_eq!(chain.info.height, 0);
    assert!(chain.info.is_empty);
    let (block, m) = mine(&chain, 1_000, 1);
    let writes = chain.add_block(&block, envelope(), &m, &retarget).unwrap();
    assert_eq!(writes.len(), 3);
    assert_eq!(chain.info.height, 1);
    assert!(!chain.info.is_empty);
    assert_eq!(chain.info.top_block_hash, block.hash);
    assert_eq!(chain.get_block(&block.hash).unwrap(), envelope());
    assert_eq!(chain.get_block_hash(1).unwrap(), block.hash.to_vec());
    let header = chain.get_block_header(&block.hash).unwrap();
    assert_eq!(header.height, 1);
    assert_eq!(header.nonce, block.header.nonce);
    assert_eq!(header.signature, block.header.signature);
    assert_eq!(chain.info.past_median_timestamp, 1_000);
    assert_eq!(header.pow_input(), block.header.pow_input());
    assert_eq!(chain.info.randomx_vm_key, [0u8; 32]);
}

#[test]
fn append_then_rollback_restores_info() {
    let mut chain = Blockchain::new(10_000);
    grow(&mut chain, 4, 1_000);
    let before = chain.info;
    let (block, m) = mine(&chain, 1_000 + 120 * 4, 50);
    chain.add_block(&block, envelope(), &m, &retarget).unwrap();
    assert_eq!(chain.info.height, 5);
    let writes = chain.del_top_block(&retarget).unwrap();
    assert_eq!(writes.len(), 3);
    assert!(chain.info == before);
    assert_eq!(chain.info.height, 4);
    assert!(chain.get_block(&block.hash).is_err());
}

#[test]
fn difficulty_follows_the_window() {
    let mut chain = Blockchain::new(10_000);
    grow(&mut chain, 3, 1_000);
    let w = chain.window_samples().unwrap();
    assert_eq!(w.len(), 3);
    assert_eq!(total_block_time(&w), 240);
    assert_eq!(chain.info.difficulty, retarget(w).difficulty);
}

fn expect(kind: BlockchainErrorKind, chain: &mut Blockchain, block: &Block, m: &Measures) {
    let before = chain.info;
    let err = chain.add_block(block, envelope(), m, &retarget).unwrap_err();
    assert_eq!(err.kind, kind);
    assert!(chain.info == before);
}

#[test]
fn header_mutations_are_rejected() {
    let mut chain = Blockchain::new(10_000);
    grow(&mut chain, 2, 1_000);
    let (block, m) = mine(&chain, 1_300, 9);

    let mut b = block.clone();
    b.header.height += 1;
    expect(BlockchainErrorKind::SkippedBlock, &mut chain, &b, &m);
    let mut b = block.clone();
    b.header.height -= 1;
    expect(BlockchainErrorKind::BlockNotAtTop, &mut chain, &b, &m);
    let mut b = block.clone();
    b.header.previous_hash[5] ^= 1;
    expect(BlockchainErrorKind::BlockPreviousHashWrong, &mut chain, &b, &m);
    let mut b = block.clone();
    b.header.difficulty_target = (f32::from_bits(b.header.difficulty_target) + 1.0).to_bits();
    expect(BlockchainErrorKind::BlockTargetDifficultyWrong, &mut chain, &b, &m);
    let mut b = block.clone();
    b.header.timestamp = 0;
    expect(BlockchainErrorKind::BlockTimestampTooEarly, &mut chain, &b, &m);
    let mut b = block.clone();
    b.header.timestamp = 10_000 + 3_601;
    expect(BlockchainErrorKind::BlockInFuture, &mut chain, &b, &m);
    let weak = Measures { block_difficulty: 1.0f32.to_bits(), ..m };
    expect(BlockchainErrorKind::BlockNotEnoughWork, &mut chain, &block, &weak);
    let mut b = block.clone();
    b.header.entry_difficulty = (f32::from_bits(b.header.entry_difficulty) + 1.0).to_bits();
    expect(BlockchainErrorKind::BlockEntryDifficultyWrong, &mut chain, &b, &m);
    let mut b = block.clone();
    b.header.max_allowed_entry_difficulty = (f32::from_bits(b.header.max_allowed_entry_difficulty) * 2.0).to_bits();
    expect(BlockchainErrorKind::BlockMaxAllowedEntryDifficultyWrong, &mut chain, &b, &m);
    let mut b = block.clone();
    b.entries[0].proof_of_work[0] ^= 1;
    expect(BlockchainErrorKind::InvalidMerkleRoot, &mut chain, &b, &m);
    let mut b = block.clone();
    b.header.signature[3] ^= 1;
    expect(BlockchainErrorKind::InvalidSignature, &mut chain, &b, &m);
    let bad_pow = Measures { pow_hash: [9u8; 32], ..m };
    expect(BlockchainErrorKind::InvalidHash, &mut chain, &block, &bad_pow);
    let before = chain.info;
    let err = chain.add_block(&block, vec![0u8; 250_001], &m, &retarget).unwrap_err();
    assert_eq!(err.kind, BlockchainErrorKind::BlockTooBig);
    assert!(chain.info == before);

    chain.add_block(&block, envelope(), &m, &retarget).unwrap();
    let err = chain.add_block(&block, envelope(), &m, &retarget).unwrap_err();
    assert_eq!(err.kind, BlockchainErrorKind::BlockAlreadyExists);
}

#[test]
fn missing_indexed_key_is_reported() {
    let mut chain = Blockchain::new(10_000);
    let sk = PrivateKey::new([3u8; 32]);
    let entry = Entry::new(vec![[1u8; 8]], [0u8; 8], None, Some(7), vec![1]);
    let sig = sk.sign(entry.to_bytes().unwrap()).as_bytes();
    let entries = vec![MempoolEntry::new(entry, sig)];
    let ed = entry_difficulty(&entries, chain.info.max_allowed_entry_difficulty);
    let hash = block_hash(3);
    let block = Block::new(
        chain.info.top_block_hash,
        1,
        entries,
        vec![0],
        10_000,
        chain.info.difficulty,
        ed,
        chain.info.entry_difficulty_multiplier,
        chain.info.max_allowed_entry_difficulty,
        [0u8; 32],
        hash,
    )
    .unwrap();
    let m = Measures { block_difficulty: 1.0e9f32.to_bits(), entry_difficulty: ed, pow_hash: hash };
    expect(BlockchainErrorKind::NoPublicKeyFound, &mut chain, &block, &m);

    let key = KeyType::make_key(KeyType::PublicKey, &7u64.to_le_bytes());
    chain.store.put(key, sk.public_key().as_bytes());
    chain.add_block(&block, envelope(), &m, &retarget).unwrap();
    assert_eq!(chain.info.height, 1);
}

#[test]
fn rollback_of_an_empty_chain_fails() {
    let mut chain = Blockchain::new(0);
    let err = chain.del_top_block(&retarget).unwrap_err();
    assert_eq!(err.kind, BlockchainErrorKind::CantFindHashFromHeight);
}

#[test]
fn default_info_values() {
    let info = BlockchainInfo::new_default(77);
    assert_eq!(f32::from_bits(info.difficulty), 256.0);
    assert_eq!(f32::from_bits(info.entry_difficulty_multiplier), 0.005);
    assert_eq!(f32::from_bits(info.max_allowed_entry_difficulty), 4096.0);
    assert_eq!(info.block_size_cap, 250_000);
    assert_eq!(info.network_adjusted_time, 77);
    assert_eq!(info.randomx_vm_key, [0u8; 32]);
}

fn filler_header(height: usize, previous_hash: [u8; 32]) -> BlockHeader {
    BlockHeader::new(
        previous_hash,
        height,
        [0u8; 28],
        1_000 + 120 * height as u64,
        256.0f32.to_bits(),
        100.0f32.to_bits(),
        0.005f32.to_bits(),
        4096.0f32.to_bits(),
        [0u8; 32],
        vec![1u8; 96],
        vec![],
    )
}

fn filler_hash(height: usize) -> [u8; 32] {
    let mut h = [0xabu8; 32];
    h[..8].copy_from_slice(&(height as u64).to_le_bytes());
    h
}

#[test]
fn key_epoch_rotates_and_reverts() {
    let top = RANDOMX_VM_KEY_LIFETIME - 1;
    let mut store = KvStore::new();
    for height in (top - 749)..=top {
        let hash = filler_hash(height);
        let header = filler_header(height, filler_hash(height - 1));
        store.put(KeyType::make_key(KeyType::BlockHeight, &(height as u64).to_le_bytes()), hash.to_vec());
        store.put(KeyType::make_key(KeyType::BlockHeader, &hash), header.to_record());
        store.put(KeyType::make_key(KeyType::Block, &hash), vec![0u8]);
    }
    let mut info = BlockchainInfo::new_default(1_000 + 120 * RANDOMX_VM_KEY_LIFETIME as u64);
    info.is_empty = false;
    info.height = top;
    info.top_block_hash = filler_hash(top);
    let mut chain = Blockchain::from_parts(info, store);
    let (block, m) = mine(&chain, 1_000 + 120 * RANDOMX_VM_KEY_LIFETIME as u64, 77);
    chain.add_block(&block, envelope(), &m, &retarget).unwrap();
    assert_eq!(chain.info.height, RANDOMX_VM_KEY_LIFETIME);
    assert_eq!(chain.info.randomx_vm_key, block.hash);
    chain.del_top_block(&retarget).unwrap();
    assert_eq!(chain.info.randomx_vm_key, [0u8; 32]);
    assert_eq!(chain.info.top_block_hash, filler_hash(top));
}

#[test]
fn recovery_truncates_to_the_last_intact_block() {
    let mut chain = Blockchain::new(10_000);
    grow(&mut chain, 3, 1_000);
    let intact = chain.info;
    assert_eq!(chain.recover(&retarget).unwrap(), false);
    assert!(chain.info == intact);

    chain.info.height = 5;
    chain.info.top_block_hash = [0x55u8; 32];
    assert_eq!(chain.recover(&retarget).unwrap(), true);
    assert!(chain.info == intact);
}

#[test]
fn long_run_then_rollback() {
    let mut chain = Blockchain::new(100_000);
    grow(&mut chain, 30, 1_000);
    assert_eq!(chain.info.height, 30);
    let before = chain.info;
    let (block, m) = mine(&chain, 1_000 + 120 * 30, 200);
    chain.add_block(&block, envelope(), &m, &retarget).unwrap();
    chain.del_top_block(&retarget).unwrap();
    assert!(chain.info == before);
}

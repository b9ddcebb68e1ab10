use blake2::{Blake2b, Digest};
use bls_signatures::{aggregate, PrivateKey, Serialize, Signature};
use padlock::block::{Block, MempoolEntry};
use padlock::entry::Entry;
use padlock::error::{BlockErrorKind, Cause};
use padlock::store::KvStore;

fn entry(seed: u8) -> (Entry, PrivateKey) {
    let sk = PrivateKey::new([seed; 32]);
    let e = Entry::new(vec![[seed; 8]], [0u8; 8], Some(sk.public_key().as_bytes()), None, vec![seed, 1]);
    (e, sk)
}

fn build(entries: Vec<MempoolEntry>) -> Result<Block, padlock::error::BlockError> {
    Block::new([0u8; 32], 1, entries, vec![0], 5, 0, 0, 0, 0, [0u8; 32], [0u8; 32])
}

#[test]
fn entry_difficulty_counts_bits_of_the_wide_digest() {
    let (e, _) = entry(4);
    let digest = Blake2b::digest(&e.to_bytes().unwrap());
    let mut zeros = 0u32;
    for b in digest.iter() {
        if b.leading_zeros() == 0 {
            break;
        }
        zeros += b.leading_zeros();
    }
    assert_eq!(e.difficulty().unwrap(), 1usize << zeros);
}

#[test]
fn block_signature_is_the_aggregate() {
    let (e1, k1) = entry(1);
    let (e2, k2) = entry(2);
    let s1 = k1.sign(e1.to_bytes().unwrap());
    let s2 = k2.sign(e2.to_bytes().unwrap());
    let expected = aggregate(&[s1, s2]).unwrap().as_bytes();
    let block = build(vec![MempoolEntry::new(e1, s1.as_bytes()), MempoolEntry::new(e2, s2.as_bytes())]).unwrap();
    assert_eq!(block.header.signature.len(), 96);
    assert_eq!(block.header.signature, expected);
    assert!(block.check_signature(&KvStore::new()).is_ok());
}

#[test]
fn wrong_signer_is_rejected() {
    let (e1, _) = entry(1);
    let (_, other) = entry(9);
    let s = other.sign(e1.to_bytes().unwrap());
    let block = build(vec![MempoolEntry::new(e1, s.as_bytes())]).unwrap();
    let err = block.check_signature(&KvStore::new()).unwrap_err();
    assert_eq!(err.kind, BlockErrorKind::InvalidSignature);
}

#[test]
fn malformed_signature_bytes() {
    let (e1, _) = entry(1);
    let err = build(vec![MempoolEntry::new(e1, vec![1u8; 95])]).unwrap_err();
    assert_eq!(err.kind, BlockErrorKind::Other);
    assert_eq!(err.source, Some(Cause::Signature));
    assert!(build(vec![]).is_err());
    assert!(Signature::from_bytes(&[0u8; 95]).is_err());
}

#[test]
fn block_without_entries() {
    let err = Block::new_with_signature([0u8; 32], 1, vec![], vec![], 0, 0, 0, 0, 0, [0u8; 32], vec![], [0u8; 32])
        .unwrap_err();
    assert_eq!(err.kind, BlockErrorKind::NoEntries);
}

#[test]
fn miner_difficulty_of_a_hash() {
    let (e1, k1) = entry(1);
    let s = k1.sign(e1.to_bytes().unwrap());
    let mut block = build(vec![MempoolEntry::new(e1, s.as_bytes())]).unwrap();
    block.hash = [0u8; 32];
    block.hash[1] = 0x20;
    assert_eq!(block.miner_difficulty(), 1 << 10);
    assert!(block.is_merkle_root_valid());
    block.header.merkle_root[0] ^= 1;
    assert!(!block.is_merkle_root_valid());
}

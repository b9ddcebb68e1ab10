use padlock::block::{count_entry_zero_bits, count_lead_zero_bits, work_of};
use padlock::keys::KeyType;
use padlock::store::KvStore;

#[test]
fn keys_are_tag_prefixed() {
    assert_eq!(KeyType::make_key(KeyType::Block, &[9, 9]), vec![0x01, 9, 9]);
    assert_eq!(KeyType::make_key(KeyType::BlockHeader, &[9]), vec![0x02, 9]);
    assert_eq!(KeyType::make_key(KeyType::BlockHeight, &[]), vec![0x03]);
    assert_eq!(KeyType::PublicKey.value(), 0x04);
}

#[test]
fn store_put_get_delete() {
    let mut s = KvStore::new();
    assert_eq!(s.get(&[1]), None);
    s.put(vec![1], vec![10]);
    s.put(vec![2], vec![20]);
    s.put(vec![1], vec![11]);
    assert_eq!(s.get(&[1]), Some(vec![11]));
    assert_eq!(s.get(&[2]), Some(vec![20]));
    s.delete(&[1]);
    assert!(!s.contains(&[1]));
    assert!(s.contains(&[2]));
    s.delete(&[7]);
    assert_eq!(s.get(&[2]), Some(vec![20]));
}

#[test]
fn zero_bit_counts() {
    assert_eq!(count_lead_zero_bits(&[0, 0, 0x10, 0]), 19);
    assert_eq!(count_lead_zero_bits(&[0x80]), 0);
    assert_eq!(count_lead_zero_bits(&[0, 0]), 16);
    assert_eq!(count_entry_zero_bits(&[0x01, 0x00, 0x80]), 15);
    assert_eq!(count_entry_zero_bits(&[0x80, 0x00]), 0);
    assert_eq!(work_of(0), 1);
    assert_eq!(work_of(10), 1024);
    assert_eq!(work_of(63), 1usize << 63);
    assert_eq!(work_of(64), usize::MAX);
    assert_eq!(work_of(300), usize::MAX);
}

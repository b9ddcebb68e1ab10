use padlock::entry::Entry;
use padlock::error::{BlockErrorKind, Cause};

fn default_entry() -> Entry {
    Entry::new(vec![[0u8; 8]], [0u8; 8], Some(vec![4u8; 48]), None, vec![2u8; 4])
}

#[test]
fn serialization_test() {
    let mut entry = default_entry();
    let bytes = entry.to_bytes().unwrap();
    let new_entry = Entry::from_bytes(&bytes).unwrap();
    assert!(entry == new_entry);

    entry.public_key = None;
    entry.public_key_index = Some(0u64);

    let bytes = entry.to_bytes().unwrap();
    let new_entry = Entry::from_bytes(&bytes).unwrap();
    assert!(entry == new_entry);
}

#[test]
fn layout_with_inline_key() {
    let bytes = default_entry().to_bytes().unwrap();
    let mut expected = vec![1u8];
    expected.extend_from_slice(&[0u8; 8]);
    expected.extend_from_slice(&[0u8; 8]);
    expected.push(0);
    expected.extend_from_slice(&[4u8; 48]);
    expected.push(4);
    expected.extend_from_slice(&[2u8; 4]);
    assert_eq!(bytes, expected);
}

#[test]
fn layout_with_key_index() {
    let entry = Entry::new(vec![[1u8; 8], [2u8; 8]], [3u8; 8], None, Some(0x0102), vec![]);
    let bytes = entry.to_bytes().unwrap();
    let mut expected = vec![2u8];
    expected.extend_from_slice(&[1u8; 8]);
    expected.extend_from_slice(&[2u8; 8]);
    expected.extend_from_slice(&[3u8; 8]);
    expected.push(1);
    expected.extend_from_slice(&[0x02, 0x01, 0, 0, 0, 0, 0, 0]);
    expected.push(0);
    assert_eq!(bytes, expected);
    assert!(Entry::from_bytes(&bytes).unwrap() == entry);
}

#[test]
fn too_many_coinfile_hashes() {
    let entry = Entry::new(vec![[0u8; 8]; 256], [0u8; 8], Some(vec![4u8; 48]), None, vec![]);
    assert_eq!(entry.to_bytes().unwrap_err().kind, BlockErrorKind::TooManyCoinfileHashes);
    let entry = Entry::new(vec![[0u8; 8]; 255], [0u8; 8], Some(vec![4u8; 48]), None, vec![]);
    assert!(entry.to_bytes().is_ok());
}

#[test]
fn no_public_key() {
    let entry = Entry::new(vec![[0u8; 8]], [0u8; 8], None, None, vec![]);
    assert_eq!(entry.to_bytes().unwrap_err().kind, BlockErrorKind::NoPublicKeyFound);
}

#[test]
fn proof_of_work_too_long() {
    let entry = Entry::new(vec![[0u8; 8]], [0u8; 8], Some(vec![4u8; 48]), None, vec![1u8; 256]);
    assert_eq!(entry.to_bytes().unwrap_err().kind, BlockErrorKind::PoWTooLong);
    let entry = Entry::new(vec![[0u8; 8]], [0u8; 8], Some(vec![4u8; 48]), None, vec![1u8; 255]);
    let bytes = entry.to_bytes().unwrap();
    assert!(Entry::from_bytes(&bytes).unwrap() == entry);
}

#[test]
fn decoding_is_strict() {
    let mut bytes = default_entry().to_bytes().unwrap();
    bytes.push(0);
    let err = Entry::from_bytes(&bytes).unwrap_err();
    assert_eq!(err.kind, BlockErrorKind::Other);
    assert_eq!(err.source, Some(Cause::Codec));
    bytes.pop();
    bytes.pop();
    assert!(Entry::from_bytes(&bytes).is_err());
    assert!(Entry::from_bytes(&[]).is_err());
    let mut bad_tag = default_entry().to_bytes().unwrap();
    bad_tag[17] = 2;
    assert!(Entry::from_bytes(&bad_tag).is_err());
}

#[test]
fn difficulty_is_a_power_of_two() {
    let d = default_entry().difficulty().unwrap();
    assert!(d.is_power_of_two());
    assert!(Entry::new(vec![], [0u8; 8], None, None, vec![]).difficulty().is_err());
}

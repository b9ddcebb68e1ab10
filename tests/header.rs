use padlock::float_bits::{f32_eq, f32_lt};
use padlock::header::BlockHeader;

fn sample() -> BlockHeader {
    BlockHeader::new(
        [1u8; 32],
        7,
        [2u8; 28],
        0x0102_0304,
        256.0f32.to_bits(),
        3.0f32.to_bits(),
        0.5f32.to_bits(),
        10.0f32.to_bits(),
        [3u8; 32],
        vec![4u8; 5],
        vec![5u8, 6],
    )
}

#[test]
fn concat_layout() {
    let h = sample();
    let mut expected = vec![1u8; 32];
    expected.extend_from_slice(&7u64.to_le_bytes());
    expected.extend_from_slice(&[2u8; 28]);
    expected.extend_from_slice(&0x0102_0304u64.to_le_bytes());
    expected.extend_from_slice(&256.0f32.to_le_bytes());
    expected.extend_from_slice(&[3u8; 32]);
    expected.extend_from_slice(&[4u8; 5]);
    assert_eq!(h.concat(), expected);
    let mut with_nonce = expected.clone();
    with_nonce.extend_from_slice(&[5u8, 6]);
    assert_eq!(h.pow_input(), with_nonce);
}

#[test]
fn record_round_trip() {
    let h = sample();
    let record = h.to_record();
    assert_eq!(record.len(), 132 + 5 + 2);
    let back = BlockHeader::from_record(&record).unwrap();
    assert_eq!(back.previous_hash, h.previous_hash);
    assert_eq!(back.height, 7);
    assert_eq!(back.timestamp, h.timestamp);
    assert_eq!(back.entry_difficulty, h.entry_difficulty);
    assert_eq!(back.signature, h.signature);
    assert_eq!(back.nonce, h.nonce);
    assert!(BlockHeader::from_record(&record[..131]).is_none());
}

#[test]
fn float_comparisons_follow_ieee() {
    let nan = f32::NAN.to_bits();
    assert!(!f32_eq(nan, nan));
    assert!(f32_eq(0.0f32.to_bits(), (-0.0f32).to_bits()));
    assert!(f32_eq(1.5f32.to_bits(), 1.5f32.to_bits()));
    assert!(!f32_eq(1.5f32.to_bits(), 2.5f32.to_bits()));
    assert!(f32_lt((-2.0f32).to_bits(), (-1.0f32).to_bits()));
    assert!(f32_lt((-1.0f32).to_bits(), 0.0f32.to_bits()));
    assert!(!f32_lt((-0.0f32).to_bits(), 0.0f32.to_bits()));
    assert!(f32_lt(1.0f32.to_bits(), f32::INFINITY.to_bits()));
    assert!(!f32_lt(nan, 1.0f32.to_bits()));
    assert!(!f32_lt(2.0f32.to_bits(), 1.0f32.to_bits()));
}

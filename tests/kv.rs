use martinez::kv::{filter_not_found, read_be_u64, sequence_step, table_size, KvError, SequenceStep};

#[test]
fn not_found_becomes_none() {
    assert_eq!(filter_not_found::<u32>(Ok(3)), Ok(Some(3)));
    assert_eq!(filter_not_found::<u32>(Err(KvError::NotFound)), Ok(None));
    assert_eq!(filter_not_found::<u32>(Err(KvError::Engine(-30798))), Err(KvError::Engine(-30798)));
}

#[test]
fn big_endian_counter() {
    assert_eq!(read_be_u64(&[0, 0, 0, 0, 0, 0, 1, 2, 9]), Ok(258));
    assert_eq!(read_be_u64(&[1, 2]), Err(KvError::Corrupted));
    assert_eq!(read_be_u64(&[0xff; 8]), Ok(u64::MAX));
}

#[test]
fn sequence_draws() {
    assert_eq!(sequence_step(None, 0), Ok(SequenceStep { current: 0, next: None }));
    assert_eq!(sequence_step(None, 5), Ok(SequenceStep { current: 0, next: Some(5) }));
    let stored = 7u64.to_be_bytes();
    assert_eq!(sequence_step(Some(&stored), 3), Ok(SequenceStep { current: 7, next: Some(10) }));
    assert_eq!(sequence_step(Some(&[1, 2, 3]), 3), Err(KvError::Corrupted));
    let max = u64::MAX.to_be_bytes();
    assert_eq!(sequence_step(Some(&max), 1), Err(KvError::Overflow));
}

#[test]
fn table_sizes() {
    assert_eq!(table_size(2, 1, 1, 4096), Ok(16384));
    assert_eq!(table_size(u64::MAX, 1, 0, 4096), Err(KvError::Overflow));
    assert_eq!(table_size(u64::MAX, 0, 0, 2), Err(KvError::Overflow));
    assert_eq!(table_size(0, 0, 0, 4096), Ok(0));
}

use martinez::kv::{be_bytes, read_be_u64};
use martinez::tables::{
    account_history_key, canonical_hash_key, header_key, plain_storage_key,
    storage_change_set_key, storage_history_key, td_key,
};

#[test]
fn be_bytes_round_trip() {
    for n in [0u64, 1, 255, 256, 0x0102_0304_0506_0708, u64::MAX] {
        let b = be_bytes(n);
        assert_eq!(b, n.to_be_bytes().to_vec());
        assert_eq!(read_be_u64(&b), Ok(n));
    }
}

#[test]
fn header_table_keys() {
    let hash = [7u8; 32];
    let k = header_key(0x0102, &hash);
    assert_eq!(&k[..8], &[0, 0, 0, 0, 0, 0, 1, 2]);
    assert_eq!(&k[8..], &hash[..]);
    let t = td_key(0x0102, &hash);
    assert_eq!(&t[..40], &k[..]);
    assert_eq!(t[40], b't');
    assert_eq!(canonical_hash_key(383), 383u64.to_be_bytes().to_vec());
}

#[test]
fn state_table_keys() {
    let a = [0xAA; 20];
    let slot = [0x01; 32];
    let p = plain_storage_key(&a, 2, &slot);
    assert_eq!(p.len(), 60);
    assert_eq!(&p[..20], &a[..]);
    assert_eq!(&p[20..28], &2u64.to_be_bytes());
    assert_eq!(&p[28..], &slot[..]);
    let c = storage_change_set_key(9, &a, 1);
    assert_eq!(&c[..8], &9u64.to_be_bytes());
    assert_eq!(&c[8..28], &a[..]);
    assert_eq!(&c[28..], &1u64.to_be_bytes());
    let h = account_history_key(&a, u64::MAX);
    assert_eq!(&h[20..], &[0xff; 8]);
    let s = storage_history_key(&a, &slot, 1000);
    assert_eq!(&s[20..52], &slot[..]);
    assert_eq!(&s[52..], &1000u64.to_be_bytes());
}

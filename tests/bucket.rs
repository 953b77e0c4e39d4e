use martinez::bucket::{buckets_configs, Bucket, BucketConfigItem, BucketFlag, SyncStage};

#[test]
fn bucket_names() {
    assert_eq!(Bucket::PlainState.as_ref(), "PLAIN-CST2");
    assert_eq!(Bucket::AccountsHistory.as_ref(), "hAT");
    assert_eq!(Bucket::StorageHistory.as_ref(), "hST");
    assert_eq!(Bucket::SnapshotInfo.as_ref(), "SNINFO");
    assert_eq!(Bucket::IntermediateTrieHash.to_string(), "iTh2");
}

#[test]
fn stage_keys() {
    assert_eq!(SyncStage::Headers.as_ref(), b"Headers");
    assert_eq!(SyncStage::AccountHistoryIndex.as_ref(), b"AccountHistoryIndex");
    assert_eq!(SyncStage::Finish.as_ref(), b"Finish");
}

#[test]
fn flag_bits() {
    assert_eq!(BucketFlag::Default.bits(), 0);
    assert_eq!(BucketFlag::DupSort.bits(), 4);
    assert_eq!(BucketFlag::ReverseDup.bits(), 0x40);
}

#[test]
fn configs() {
    let c = buckets_configs();
    assert_eq!(c.len(), 7);
    let get = |n: &str| -> BucketConfigItem { c.iter().find(|(k, _)| *k == n).unwrap().1 };
    let cs = get("CurrentStateBucket");
    assert_eq!((cs.flags, cs.auto_dup_sort_keys_conversion, cs.dup_from_len, cs.dup_to_len), (4, true, 72, 40));
    let ps = get("PlainStateBucket");
    assert_eq!((ps.dup_from_len, ps.dup_to_len), (60, 28));
    let it = get("IntermediateTrieHashBucket");
    assert_eq!(it.custom_dup_comparator, "dup_cmp_suffix32");
    assert_eq!(it.flags, 4);
    let acs = get("PlainAccountChangeSetBucket");
    assert!(!acs.auto_dup_sort_keys_conversion);
    let d = BucketConfigItem::default();
    assert_eq!((d.flags, d.dbi, d.custom_comparator), (0, 0, ""));
}

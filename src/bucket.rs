use vstd::prelude::*;
use vstd::string::StringSliceAdditionalSpecFns;

verus! {

/// Logical key-value namespaces of the chain database.
#[derive(Clone, Copy, Debug, PartialEq, Eq, Hash, Structural)]
pub enum Bucket {
    PlainState,
    PlainContractCode,
    PlainAccountChangeSet,
    PlainStorageChangeSet,
    CurrentState,
    AccountsHistory,
    StorageHistory,
    Code,
    ContractCode,
    IncarnationMap,
    AccountChangeSet,
    StorageChangeSet,
    IntermediateTrieHash,
    DatabaseInfo,
    SnapshotInfo,
}

/// The on-disk table name of a bucket.
pub open spec fn bucket_name(b: Bucket) -> &'static str {
    match b {
        Bucket::PlainState => "PLAIN-CST2",
        Bucket::PlainContractCode => "PLAIN-contractCode",
        Bucket::PlainAccountChangeSet => "PLAIN-ACS",
        Bucket::PlainStorageChangeSet => "PLAIN-SCS",
        Bucket::CurrentState => "CST2",
        Bucket::AccountsHistory => "hAT",
        Bucket::StorageHistory => "hST",
        Bucket::Code => "CODE",
        Bucket::ContractCode => "contractCode",
        Bucket::IncarnationMap => "incarnationMap",
        Bucket::AccountChangeSet => "ACS",
        Bucket::StorageChangeSet => "SCS",
        Bucket::IntermediateTrieHash => "iTh2",
        Bucket::DatabaseInfo => "DBINFO",
        Bucket::SnapshotInfo => "SNINFO",
    }
}

impl Bucket {
    /// The table name under which this bucket is stored.
    pub fn as_ref(&self) -> (r: &'static str)
        ensures
            r == bucket_name(*self),
    {
        match self {
            Bucket::PlainState => "PLAIN-CST2",
            Bucket::PlainContractCode => "PLAIN-contractCode",
            Bucket::PlainAccountChangeSet => "PLAIN-ACS",
            Bucket::PlainStorageChangeSet => "PLAIN-SCS",
            Bucket::CurrentState => "CST2",
            Bucket::AccountsHistory => "hAT",
            Bucket::StorageHistory => "hST",
            Bucket::Code => "CODE",
            Bucket::ContractCode => "contractCode",
            Bucket::IncarnationMap => "incarnationMap",
            Bucket::AccountChangeSet => "ACS",
            Bucket::StorageChangeSet => "SCS",
            Bucket::IntermediateTrieHash => "iTh2",
            Bucket::DatabaseInfo => "DBINFO",
            Bucket::SnapshotInfo => "SNINFO",
        }
    }

    /// The table name as an owned string, for display.
    pub fn to_string(&self) -> (r: String)
        ensures
            r@ == bucket_name(*self)@,
    {
        String::from_str(self.as_ref())
    }
}

pub type BucketFlags = u8;

pub type DBI = u8;

pub type CustomComparator = &'static str;

/// Stages of the staged-sync pipeline, in execution order.
#[derive(Clone, Copy, Debug, PartialEq, Eq, Structural)]
pub enum SyncStage {
    Headers,
    BlockHashes,
    Bodies,
    Senders,
    Execution,
    IntermediateHashes,
    HashState,
    AccountHistoryIndex,
    StorageHistoryIndex,
    LogIndex,
    CallTraces,
    TxLookup,
    TxPool,
    Finish,
}

/// The key under which a stage's progress is recorded.
pub open spec fn stage_name(s: SyncStage) -> &'static str {
    match s {
        SyncStage::Headers => "Headers",
        SyncStage::BlockHashes => "BlockHashes",
        SyncStage::Bodies => "Bodies",
        SyncStage::Senders => "Senders",
        SyncStage::Execution => "Execution",
        SyncStage::IntermediateHashes => "IntermediateHashes",
        SyncStage::HashState => "HashState",
        SyncStage::AccountHistoryIndex => "AccountHistoryIndex",
        SyncStage::StorageHistoryIndex => "StorageHistoryIndex",
        SyncStage::LogIndex => "LogIndex",
        SyncStage::CallTraces => "CallTraces",
        SyncStage::TxLookup => "TxLookup",
        SyncStage::TxPool => "TxPool",
        SyncStage::Finish => "Finish",
    }
}

impl SyncStage {
    /// The UTF-8 bytes of the stage's progress key.
    pub fn as_ref(&self) -> (r: &'static [u8])
        ensures
            r@ == stage_name(*self).spec_bytes(),
    {
        let name: &'static str = match self {
            SyncStage::Headers => "Headers",
            SyncStage::BlockHashes => "BlockHashes",
            SyncStage::Bodies => "Bodies",
            SyncStage::Senders => "Senders",
            SyncStage::Execution => "Execution",
            SyncStage::IntermediateHashes => "IntermediateHashes",
            SyncStage::HashState => "HashState",
            SyncStage::AccountHistoryIndex => "AccountHistoryIndex",
            SyncStage::StorageHistoryIndex => "StorageHistoryIndex",
            SyncStage::LogIndex => "LogIndex",
            SyncStage::CallTraces => "CallTraces",
            SyncStage::TxLookup => "TxLookup",
            SyncStage::TxPool => "TxPool",
            SyncStage::Finish => "Finish",
        };
        name.as_bytes()
    }
}

/// Table flags understood by the storage engine.
#[derive(Clone, Copy, Debug, PartialEq, Eq, Structural)]
pub enum BucketFlag {
    Default,
    ReverseKey,
    DupSort,
    IntegerKey,
    DupFixed,
    IntegerDup,
    ReverseDup,
}

/// The engine's bit for each flag.
pub open spec fn flag_bits(f: BucketFlag) -> u8 {
    match f {
        BucketFlag::Default => 0x00,
        BucketFlag::ReverseKey => 0x02,
        BucketFlag::DupSort => 0x04,
        BucketFlag::IntegerKey => 0x08,
        BucketFlag::DupFixed => 0x10,
        BucketFlag::IntegerDup => 0x20,
        BucketFlag::ReverseDup => 0x40,
    }
}

impl BucketFlag {
    /// The flag as the engine's bit mask.
    pub fn bits(&self) -> (r: u8)
        ensures
            r == flag_bits(*self),
    {
        match self {
            BucketFlag::Default => 0x00,
            BucketFlag::ReverseKey => 0x02,
            BucketFlag::DupSort => 0x04,
            BucketFlag::IntegerKey => 0x08,
            BucketFlag::DupFixed => 0x10,
            BucketFlag::IntegerDup => 0x20,
            BucketFlag::ReverseDup => 0x40,
        }
    }
}

pub const HEADER_PREFIX: &'static str = "h";

pub const HEADER_TD_SUFFIX: &'static str = "t";

pub const HEADER_HASH_SUFFIX: &'static str = "n";

pub const HEADER_NUMBER_PREFIX: &'static str = "H";

pub const BLOCK_BODY_PREFIX: &'static str = "b";

pub const ETH_TX: &'static str = "eth_tx";

pub const BLOCK_RECEIPTS_PREFIX: &'static str = "r";

pub const LOG: &'static str = "log";

pub const CONFIG_PREFIX: &'static str = "ethereum-config-";

pub const SYNC_STAGE_PROGRESS: &'static str = "SSP2";

/// How the storage engine lays out one table.
///
/// With `auto_dup_sort_keys_conversion`, a key of length `dup_from_len` is
/// split on write: its bytes past `dup_to_len` move to the front of the value.
#[derive(Clone, Copy)]
pub struct BucketConfigItem {
    pub flags: BucketFlags,
    pub auto_dup_sort_keys_conversion: bool,
    pub is_deprecated: bool,
    pub dbi: DBI,
    pub dup_from_len: u8,
    pub dup_to_len: u8,
    pub dup_fixed_size: u8,
    pub custom_comparator: CustomComparator,
    pub custom_dup_comparator: CustomComparator,
}

/// The configuration with every flag off and no comparators.
pub open spec fn default_config() -> BucketConfigItem {
    BucketConfigItem {
        flags: 0,
        auto_dup_sort_keys_conversion: false,
        is_deprecated: false,
        dbi: 0,
        dup_from_len: 0,
        dup_to_len: 0,
        dup_fixed_size: 0,
        custom_comparator: "",
        custom_dup_comparator: "",
    }
}

impl Default for BucketConfigItem {
    fn default() -> (r: Self)
        ensures
            r == default_config(),
    {
        BucketConfigItem {
            flags: 0,
            auto_dup_sort_keys_conversion: false,
            is_deprecated: false,
            dbi: 0,
            dup_from_len: 0,
            dup_to_len: 0,
            dup_fixed_size: 0,
            custom_comparator: "",
            custom_dup_comparator: "",
        }
    }
}

/// A duplicate-sorted table with every other setting at its default.
pub open spec fn dup_sort_config() -> BucketConfigItem {
    BucketConfigItem { flags: flag_bits(BucketFlag::DupSort), ..default_config() }
}

/// A duplicate-sorted table whose long keys are split at `to` bytes.
pub open spec fn split_key_config(from: u8, to: u8) -> BucketConfigItem {
    BucketConfigItem {
        flags: flag_bits(BucketFlag::DupSort),
        auto_dup_sort_keys_conversion: true,
        dup_from_len: from,
        dup_to_len: to,
        ..default_config()
    }
}

/// The tables that need a configuration other than the default, by name.
pub open spec fn configured_buckets() -> Seq<(&'static str, BucketConfigItem)> {
    seq![
        ("CurrentStateBucket", split_key_config(72, 40)),
        ("PlainAccountChangeSetBucket", dup_sort_config()),
        ("PlainStorageChangeSetBucket", dup_sort_config()),
        ("AccountChangeSetBucket", dup_sort_config()),
        ("StorageChangeSetBucket", dup_sort_config()),
        ("PlainStateBucket", split_key_config(60, 28)),
        ("IntermediateTrieHashBucket", BucketConfigItem {
            custom_dup_comparator: "dup_cmp_suffix32",
            ..dup_sort_config()
        }),
    ]
}

fn dup_sort_item() -> (r: BucketConfigItem)
    ensures
        r == dup_sort_config(),
{
    BucketConfigItem { flags: BucketFlag::DupSort.bits(), ..BucketConfigItem::default() }
}

fn split_key_item(from: u8, to: u8) -> (r: BucketConfigItem)
    ensures
        r == split_key_config(from, to),
{
    BucketConfigItem {
        flags: BucketFlag::DupSort.bits(),
        auto_dup_sort_keys_conversion: true,
        dup_from_len: from,
        dup_to_len: to,
        ..BucketConfigItem::default()
    }
}

/// The table configurations, one entry per configured table name.
pub fn buckets_configs() -> (r: Vec<(&'static str, BucketConfigItem)>)
    ensures
        r@ == configured_buckets(),
{
    let mut v: Vec<(&'static str, BucketConfigItem)> = Vec::new();
    v.push(("CurrentStateBucket", split_key_item(72, 40)));
    v.push(("PlainAccountChangeSetBucket", dup_sort_item()));
    v.push(("PlainStorageChangeSetBucket", dup_sort_item()));
    v.push(("AccountChangeSetBucket", dup_sort_item()));
    v.push(("StorageChangeSetBucket", dup_sort_item()));
    v.push(("PlainStateBucket", split_key_item(60, 28)));
    v.push((
        "IntermediateTrieHashBucket",
        BucketConfigItem { custom_dup_comparator: "dup_cmp_suffix32", ..dup_sort_item() },
    ));
    assert(v@ =~= configured_buckets());
    v
}

} // verus!

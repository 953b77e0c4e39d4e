use vstd::prelude::*;
use crate::header_slices::{
    BlockHeader, HeaderSlice, HeaderSliceStatus, HeaderSlices, chain_linked, count_status,
    headers_fit, HEADER_SLICE_SIZE, MAX_ATTEMPTS, MAX_FINAL_BLOCK_NUM, REQUEST_TIMEOUT,
};
use crate::kv::{be_bytes, be_seq};
use crate::tables::{be_at, canonical_hash_key, td_key, HEADER_TD_SUFFIX_BYTE};
use crate::types::{BlockNumber, H256, PeerId, same_bytes};

verus! {

/// Most slices that may wait for an answer at once.
pub const MAX_INFLIGHT: usize = 16;

/// A `GetBlockHeaders` request for the sentry.
#[derive(Clone, Copy, Debug, PartialEq, Eq, Structural)]
pub struct FetchRequest {
    pub start_block_num: BlockNumber,
    pub limit: u64,
    pub skip: u64,
    pub reverse: bool,
}

/// Slice `i` is the lowest one with status `st`.
pub open spec fn is_lowest(s: Seq<HeaderSlice>, i: int, st: HeaderSliceStatus) -> bool {
    &&& 0 <= i < s.len()
    &&& s[i].status == st
    &&& forall|j: int| 0 <= j < i ==> (#[trigger] s[j]).status != st
}

/// Some slice of `s` has status `st`.
pub open spec fn has_status(s: Seq<HeaderSlice>, st: HeaderSliceStatus) -> bool {
    exists|i: int| 0 <= i < s.len() && (#[trigger] s[i]).status == st
}

/// The window's shape is unchanged: only slice contents differ.
pub open spec fn same_frame(a: &HeaderSlices, b: &HeaderSlices) -> bool {
    &&& a.slices@.len() == b.slices@.len()
    &&& a.max_slices == b.max_slices
    &&& a.start_block_num == b.start_block_num
    &&& a.final_block_num == b.final_block_num
}

/// The request that fills the slice starting at `start`.
pub open spec fn request_for(start: BlockNumber) -> FetchRequest {
    FetchRequest { start_block_num: start, limit: (HEADER_SLICE_SIZE + 1) as u64, skip: 0, reverse: false }
}

/// Asks for the lowest `Empty` slice, unless `MAX_INFLIGHT` slices wait already.
pub fn fetch_request(slices: &mut HeaderSlices, now: u64) -> (r: Option<FetchRequest>)
    requires
        old(slices).wf(),
    ensures
        final(slices).wf(),
        same_frame(final(slices), old(slices)),
        r is Some <==> count_status(old(slices).slices@, HeaderSliceStatus::Waiting) < MAX_INFLIGHT
            && has_status(old(slices).slices@, HeaderSliceStatus::Empty),
        r is None ==> final(slices).slices@ == old(slices).slices@,
        r is Some ==> exists|i: int|
            {
                &&& is_lowest(old(slices).slices@, i, HeaderSliceStatus::Empty)
                &&& r == Some(request_for(old(slices).slices@[i].start_block_num))
                &&& final(slices).slices@ == old(slices).slices@.update(
                    i,
                    HeaderSlice {
                        status: HeaderSliceStatus::Waiting,
                        request_time: now,
                        ..old(slices).slices@[i]
                    },
                )
            },
{
    if slices.count_by_status(HeaderSliceStatus::Waiting) >= MAX_INFLIGHT {
        return None;
    }
    match slices.find_by_status(HeaderSliceStatus::Empty) {
        None => None,
        Some(i) => {
            slices.slices[i].status = HeaderSliceStatus::Waiting;
            slices.slices[i].request_time = now;
            assert(is_lowest(old(slices).slices@, i as int, HeaderSliceStatus::Empty));
            Some(
                FetchRequest {
                    start_block_num: slices.slices[i].start_block_num,
                    limit: HEADER_SLICE_SIZE + 1,
                    skip: 0,
                    reverse: false,
                },
            )
        },
    }
}

/// Whether `hs` are numbered from `start` on, each the parent of the next.
pub fn check_chain(hs: &Vec<BlockHeader>, start: BlockNumber) -> (r: bool)
    ensures
        r == chain_linked(hs@, start as int),
{
    let mut i: usize = 0;
    while i < hs.len()
        invariant
            i <= hs@.len(),
            forall|k: int| 0 <= k < i ==> #[trigger] hs@[k].number == start + k,
            forall|k: int| 0 <= k < i - 1 ==> #[trigger] hs@[k + 1].parent_hash == hs@[k].hash,
        decreases hs@.len() - i,
    {
        if hs[i].number < start || hs[i].number - start != i as u64 {
            return false;
        }
        if i > 0 && !same_bytes(&hs[i].parent_hash, &hs[i - 1].hash) {
            assert(hs@[(i - 1) + 1].parent_hash != hs@[i - 1].hash);
            return false;
        }
        i += 1;
    }
    true
}

/// Slice `i` waits for exactly the headers `hs`.
pub open spec fn answers(s: Seq<HeaderSlice>, hs: Seq<BlockHeader>, i: int) -> bool {
    &&& 0 <= i < s.len()
    &&& s[i].status == HeaderSliceStatus::Waiting
    &&& hs.len() > 0
    &&& s[i].start_block_num == hs[0].number
    &&& headers_fit(hs, s[i].start_block_num as int)
}

/// Stores a `BlockHeaders` response in the waiting slice that it answers,
/// credited to `peer`; a response that answers no slice is dropped.
pub fn accept_headers(slices: &mut HeaderSlices, headers: Vec<BlockHeader>, peer: PeerId) -> (r:
    bool)
    requires
        old(slices).wf(),
    ensures
        final(slices).wf(),
        same_frame(final(slices), old(slices)),
        r == exists|i: int| answers(old(slices).slices@, headers@, i),
        !r ==> final(slices).slices@ == old(slices).slices@,
        r ==> exists|i: int|
            {
                &&& answers(old(slices).slices@, headers@, i)
                &&& final(slices).slices@ == old(slices).slices@.update(
                    i,
                    HeaderSlice {
                        status: HeaderSliceStatus::Downloaded,
                        headers: Some(headers),
                        from_peer_id: Some(peer),
                        ..old(slices).slices@[i]
                    },
                )
            },
{
    if headers.len() as u64 != HEADER_SLICE_SIZE + 1 {
        return false;
    }
    let n = headers[0].number;
    if n < slices.start_block_num || (n - slices.start_block_num) % HEADER_SLICE_SIZE != 0 {
        assert forall|i: int| !answers(old(slices).slices@, headers@, i) by {
            if 0 <= i < slices.slices@.len() {
                assert(slices.slices@[i].start_block_num == slices.slice_start(i));
            }
        }
        return false;
    }
    let q = (n - slices.start_block_num) / HEADER_SLICE_SIZE;
    if q >= slices.slices.len() as u64 {
        assert forall|i: int| !answers(old(slices).slices@, headers@, i) by {
            if 0 <= i < slices.slices@.len() {
                assert(slices.slices@[i].start_block_num == slices.slice_start(i));
            }
        }
        return false;
    }
    let idx = q as usize;
    assert(slices.slices@[idx as int].start_block_num == n);
    assert forall|i: int| #[trigger] answers(old(slices).slices@, headers@, i) implies i == idx by {
        assert(slices.slices@[i].start_block_num == slices.slice_start(i));
    }
    if slices.slices[idx].status != HeaderSliceStatus::Waiting || !check_chain(&headers, n) {
        return false;
    }
    assert(answers(old(slices).slices@, headers@, idx as int));
    slices.slices[idx].status = HeaderSliceStatus::Downloaded;
    slices.slices[idx].headers = Some(headers);
    slices.slices[idx].from_peer_id = Some(peer);
    true
}

/// The slice's request has gone unanswered for `REQUEST_TIMEOUT`.
pub open spec fn timed_out(s: HeaderSlice, now: u64) -> bool {
    s.status == HeaderSliceStatus::Waiting && s.request_time + REQUEST_TIMEOUT <= now
}

/// A timed-out slice counts one more attempt; it goes back to `Empty`, or
/// to `Invalid` once `MAX_ATTEMPTS` attempts have timed out.
pub open spec fn after_timeout(s: HeaderSlice) -> HeaderSlice {
    let a = if s.request_attempt < MAX_ATTEMPTS {
        s.request_attempt + 1
    } else {
        MAX_ATTEMPTS as int
    };
    HeaderSlice {
        status: if a >= MAX_ATTEMPTS {
            HeaderSliceStatus::Invalid
        } else {
            HeaderSliceStatus::Empty
        },
        request_attempt: a as u64,
        ..s
    }
}

/// Sends every timed-out waiting slice back for another request.
pub fn retry_timed_out(slices: &mut HeaderSlices, now: u64) -> (r: usize)
    requires
        old(slices).wf(),
    ensures
        final(slices).wf(),
        same_frame(final(slices), old(slices)),
        forall|i: int|
            0 <= i < old(slices).slices@.len() ==> (#[trigger] final(slices).slices@[i]) == if timed_out(
                old(slices).slices@[i],
                now,
            ) {
                after_timeout(old(slices).slices@[i])
            } else {
                old(slices).slices@[i]
            },
{
    let mut i: usize = 0;
    let mut n: usize = 0;
    while i < slices.slices.len()
        invariant
            i <= slices.slices@.len(),
            n <= i,
            slices.wf(),
            same_frame(slices, old(slices)),
            forall|k: int|
                0 <= k < i ==> (#[trigger] slices.slices@[k]) == if timed_out(
                    old(slices).slices@[k],
                    now,
                ) {
                    after_timeout(old(slices).slices@[k])
                } else {
                    old(slices).slices@[k]
                },
            forall|k: int| i <= k < slices.slices@.len() ==> #[trigger] slices.slices@[k] == old(
                slices,
            ).slices@[k],
        decreases slices.slices@.len() - i,
    {
        let t = slices.slices[i].request_time;
        if slices.slices[i].status == HeaderSliceStatus::Waiting && now >= t && now - t
            >= REQUEST_TIMEOUT {
            let a = if slices.slices[i].request_attempt < MAX_ATTEMPTS {
                slices.slices[i].request_attempt + 1
            } else {
                MAX_ATTEMPTS
            };
            slices.slices[i].request_attempt = a;
            slices.slices[i].status = if a >= MAX_ATTEMPTS {
                HeaderSliceStatus::Invalid
            } else {
                HeaderSliceStatus::Empty
            };
            n += 1;
        }
        i += 1;
    }
    n
}

/// Trusted hashes of slice boundaries: entry `k` is the hash of block
/// `k * HEADER_SLICE_SIZE`.
#[derive(Debug)]
pub struct PreverifiedHashesConfig {
    pub hashes: Vec<H256>,
}

impl PreverifiedHashesConfig {
    /// The last anchored block, up to which headers are downloaded.
    pub fn final_block_num(&self) -> (r: Option<BlockNumber>)
        ensures
            r is Some <==> 1 <= self.hashes@.len() && (self.hashes@.len() - 1) * HEADER_SLICE_SIZE
                <= MAX_FINAL_BLOCK_NUM,
            r is Some ==> r->0 == (self.hashes@.len() - 1) * HEADER_SLICE_SIZE,
    {
        let n = self.hashes.len();
        if n == 0 {
            return None;
        }
        let k = (n - 1) as u64;
        if k > MAX_FINAL_BLOCK_NUM / HEADER_SLICE_SIZE {
            return None;
        }
        Some(k * HEADER_SLICE_SIZE)
    }
}

/// The slice at `start` holds the anchors of its own and the next slice.
pub open spec fn preverified_ok(hs: Seq<BlockHeader>, start: int, hashes: Seq<H256>) -> bool {
    let k = start / HEADER_SLICE_SIZE as int;
    &&& hs.len() == HEADER_SLICE_SIZE + 1
    &&& chain_linked(hs, start)
    &&& k + 1 < hashes.len()
    &&& hs[0].hash == hashes[k]
    &&& hs[HEADER_SLICE_SIZE as int].hash == hashes[k + 1]
}

/// The status that verification gives a downloaded slice.
pub open spec fn verify_outcome(hs: Seq<BlockHeader>, start: int, hashes: Seq<H256>) -> HeaderSliceStatus {
    if preverified_ok(hs, start, hashes) {
        HeaderSliceStatus::Verified
    } else {
        HeaderSliceStatus::Invalid
    }
}

/// Verifies the lowest `Downloaded` slice against the trusted anchors.
pub fn verify_slice(slices: &mut HeaderSlices, config: &PreverifiedHashesConfig) -> (r: Option<usize>)
    requires
        old(slices).wf(),
    ensures
        final(slices).wf(),
        same_frame(final(slices), old(slices)),
        r is None <==> !has_status(old(slices).slices@, HeaderSliceStatus::Downloaded),
        r is None ==> final(slices).slices@ == old(slices).slices@,
        r matches Some(i) ==> {
            &&& is_lowest(old(slices).slices@, i as int, HeaderSliceStatus::Downloaded)
            &&& final(slices).slices@ == old(slices).slices@.update(
                i as int,
                HeaderSlice {
                    status: verify_outcome(
                        old(slices).slices@[i as int].headers->0@,
                        old(slices).slices@[i as int].start_block_num as int,
                        config.hashes@,
                    ),
                    ..old(slices).slices@[i as int]
                },
            )
        },
{
    match slices.find_by_status(HeaderSliceStatus::Downloaded) {
        None => None,
        Some(i) => {
            let ok = match &slices.slices[i].headers {
                Some(hs) => preverified_check(hs, slices.slices[i].start_block_num, &config.hashes),
                None => false,
            };
            slices.slices[i].status = if ok {
                HeaderSliceStatus::Verified
            } else {
                HeaderSliceStatus::Invalid
            };
            Some(i)
        },
    }
}

/// Whether a linked run of headers matches the anchors around it.
fn preverified_check(hs: &Vec<BlockHeader>, start: BlockNumber, hashes: &Vec<H256>) -> (r: bool)
    requires
        headers_fit(hs@, start as int),
    ensures
        r == preverified_ok(hs@, start as int, hashes@),
{
    let q: u64 = start / HEADER_SLICE_SIZE;
    let n: u64 = hashes.len() as u64;
    if n < 2 || q > n - 2 {
        return false;
    }
    let k = q as usize;
    same_bytes(&hs[0].hash, &hashes[k]) && same_bytes(
        &hs[HEADER_SLICE_SIZE as usize].hash,
        &hashes[k + 1],
    )
}

/// Verifying the same downloaded headers twice gives the same status.
pub proof fn lemma_verify_idempotent(
    a: Seq<BlockHeader>,
    b: Seq<BlockHeader>,
    start: int,
    hashes: Seq<H256>,
)
    requires
        a == b,
    ensures
        verify_outcome(a, start, hashes) == verify_outcome(b, start, hashes),
{
}

/// Resets the lowest `Invalid` slice to a fresh `Empty` one and returns its
/// position with the peer to penalize for it, if one delivered it.
pub fn penalize(slices: &mut HeaderSlices) -> (r: Option<(usize, Option<PeerId>)>)
    requires
        old(slices).wf(),
    ensures
        final(slices).wf(),
        same_frame(final(slices), old(slices)),
        r is None <==> !has_status(old(slices).slices@, HeaderSliceStatus::Invalid),
        r is None ==> final(slices).slices@ == old(slices).slices@,
        r matches Some((i, peer)) ==> {
            &&& is_lowest(old(slices).slices@, i as int, HeaderSliceStatus::Invalid)
            &&& peer == old(slices).slices@[i as int].from_peer_id
            &&& final(slices).slices@ == old(slices).slices@.update(
                i as int,
                HeaderSlice {
                    status: HeaderSliceStatus::Empty,
                    headers: None,
                    request_attempt: 0,
                    from_peer_id: None,
                    ..old(slices).slices@[i as int]
                },
            )
        },
{
    match slices.find_by_status(HeaderSliceStatus::Invalid) {
        None => None,
        Some(i) => {
            let peer = slices.slices[i].from_peer_id;
            slices.slices[i].status = HeaderSliceStatus::Empty;
            slices.slices[i].headers = None;
            slices.slices[i].request_attempt = 0;
            slices.slices[i].from_peer_id = None;
            Some((i, peer))
        },
    }
}

/// Drops the headers of the lowest `Saved` slice and marks it `Refilled`.
pub fn refill(slices: &mut HeaderSlices) -> (r: Option<usize>)
    requires
        old(slices).wf(),
    ensures
        final(slices).wf(),
        same_frame(final(slices), old(slices)),
        r is None <==> !has_status(old(slices).slices@, HeaderSliceStatus::Saved),
        r is None ==> final(slices).slices@ == old(slices).slices@,
        r matches Some(i) ==> {
            &&& is_lowest(old(slices).slices@, i as int, HeaderSliceStatus::Saved)
            &&& final(slices).slices@ == old(slices).slices@.update(
                i as int,
                HeaderSlice {
                    status: HeaderSliceStatus::Refilled,
                    headers: None,
                    ..old(slices).slices@[i as int]
                },
            )
        },
{
    match slices.find_by_status(HeaderSliceStatus::Saved) {
        None => None,
        Some(i) => {
            slices.slices[i].status = HeaderSliceStatus::Refilled;
            slices.slices[i].headers = None;
            Some(i)
        },
    }
}

/// A persisted canonical header: its hash and the chain's total difficulty
/// up to and including it.
#[derive(Clone, Copy, Debug)]
pub struct SavedHeader {
    pub hash: H256,
    pub total_difficulty: u128,
}

/// The canonical headers saved so far; entry `n` is block `n`.
#[derive(Debug)]
pub struct HeaderStore {
    pub records: Vec<SavedHeader>,
}

/// The rows that a saved header puts in the canonical-hash, header-number
/// and total-difficulty tables.
#[derive(Debug)]
pub struct HeaderRows {
    pub canonical_key: Vec<u8>,
    pub canonical_value: Vec<u8>,
    pub number_key: Vec<u8>,
    pub number_value: Vec<u8>,
    pub td_key: Vec<u8>,
    pub total_difficulty: u128,
}

/// Why saving a slice failed.
#[derive(Clone, Copy, Debug, PartialEq, Eq, Structural)]
pub enum SaveError {
    TotalDifficultyOverflow,
}

/// Sum of the difficulties of the first `n` headers.
pub open spec fn difficulty_sum(hs: Seq<BlockHeader>, n: int) -> int
    decreases n,
{
    if n <= 0 {
        0
    } else {
        difficulty_sum(hs, n - 1) + hs[n - 1].difficulty
    }
}

proof fn lemma_difficulty_sum_monotonic(hs: Seq<BlockHeader>, m: int, n: int)
    requires
        0 <= m <= n,
    ensures
        difficulty_sum(hs, m) <= difficulty_sum(hs, n),
    decreases n - m,
{
    if m < n {
        lemma_difficulty_sum_monotonic(hs, m, n - 1);
    }
}

/// The records that saving the slice `hs` appends, after a chain whose
/// total difficulty is `prev`.
pub open spec fn saved_records(hs: Seq<BlockHeader>, prev: int) -> Seq<SavedHeader> {
    Seq::new(
        HEADER_SLICE_SIZE as nat,
        |j: int|
            SavedHeader {
                hash: hs[j].hash,
                total_difficulty: (prev + difficulty_sum(hs, j + 1)) as u128,
            },
    )
}

/// Total difficulty at the tip of `records`.
pub open spec fn tip_difficulty(records: Seq<SavedHeader>) -> int {
    if records.len() == 0 {
        0
    } else {
        records.last().total_difficulty as int
    }
}

impl HeaderStore {
    pub fn new() -> (r: Self)
        ensures
            r.records@.len() == 0,
    {
        HeaderStore { records: Vec::new() }
    }

    /// The canonical hash of block `n`, if it has been saved.
    pub fn canonical_hash(&self, n: BlockNumber) -> (r: Option<H256>)
        ensures
            r is Some <==> n < self.records@.len(),
            r is Some ==> r->0 == self.records@[n as int].hash,
    {
        if n < self.records.len() as u64 {
            Some(self.records[n as usize].hash)
        } else {
            None
        }
    }

    /// The table rows of saved block `n`: `CanonicalHash[n] = hash`,
    /// `HeaderNumber[hash] = n` and the key of `TotalDifficulty[n ‖ hash]`
    /// with its value.
    pub fn rows(&self, n: BlockNumber) -> (r: Option<HeaderRows>)
        ensures
            r is None <==> n >= self.records@.len(),
            r matches Some(x) ==> {
                let h = self.records@[n as int].hash;
                &&& x.canonical_key@.len() == 8
                &&& be_at(x.canonical_key@, 0, n)
                &&& x.canonical_value@ == h@
                &&& x.number_key@ == h@
                &&& x.number_value@ == be_seq(n as nat, 8)
                &&& x.td_key@.len() == 41
                &&& be_at(x.td_key@, 0, n)
                &&& x.td_key@.subrange(8, 40) == h@
                &&& x.td_key@[40] == HEADER_TD_SUFFIX_BYTE
                &&& x.total_difficulty == self.records@[n as int].total_difficulty
            },
    {
        if n >= self.records.len() as u64 {
            return None;
        }
        let rec = self.records[n as usize];
        Some(
            HeaderRows {
                canonical_key: canonical_hash_key(n),
                canonical_value: vstd::slice::slice_to_vec(rec.hash.as_slice()),
                number_key: vstd::slice::slice_to_vec(rec.hash.as_slice()),
                number_value: be_bytes(n),
                td_key: td_key(n, &rec.hash),
                total_difficulty: rec.total_difficulty,
            },
        )
    }

    /// Number of saved blocks: all of `[0, progress)` are canonical.
    pub fn progress(&self) -> (r: usize)
        ensures
            r == self.records@.len(),
    {
        self.records.len()
    }
}

/// Saves the lowest `Verified` slice when it continues the saved chain.
///
/// A slice is only ever saved onto a store that holds every block below it,
/// so saved slices come in ascending order with no gap. A slice above a gap
/// waits; nothing changes. On an overflow of the total difficulty nothing is
/// written.
pub fn save_slice(slices: &mut HeaderSlices, store: &mut HeaderStore) -> (r: Result<
    Option<usize>,
    SaveError,
>)
    requires
        old(slices).wf(),
    ensures
        final(slices).wf(),
        same_frame(final(slices), old(slices)),
        r matches Ok(Some(i)) ==> {
            let s = old(slices).slices@[i as int];
            &&& is_lowest(old(slices).slices@, i as int, HeaderSliceStatus::Verified)
            &&& old(store).records@.len() == s.start_block_num
            &&& final(store).records@ == old(store).records@ + saved_records(
                s.headers->0@,
                tip_difficulty(old(store).records@),
            )
            &&& final(slices).slices@ == old(slices).slices@.update(
                i as int,
                HeaderSlice { status: HeaderSliceStatus::Saved, ..s },
            )
        },
        r matches Ok(None) ==> {
            &&& final(slices).slices@ == old(slices).slices@
            &&& final(store).records@ == old(store).records@
            &&& forall|i: int|
                is_lowest(old(slices).slices@, i, HeaderSliceStatus::Verified)
                    ==> old(store).records@.len() != old(slices).slices@[i].start_block_num
        },
        r is Err ==> {
            &&& final(slices).slices@ == old(slices).slices@
            &&& final(store).records@ == old(store).records@
            &&& exists|i: int|
                {
                    let s = old(slices).slices@[i];
                    &&& #[trigger] is_lowest(old(slices).slices@, i, HeaderSliceStatus::Verified)
                    &&& old(store).records@.len() == s.start_block_num
                    &&& tip_difficulty(old(store).records@) + difficulty_sum(
                        s.headers->0@,
                        HEADER_SLICE_SIZE as int,
                    ) > u128::MAX
                }
        },
{
    let i = match slices.find_by_status(HeaderSliceStatus::Verified) {
        None => {
            return Ok(None);
        },
        Some(i) => i,
    };
    if slices.slices[i].start_block_num != store.records.len() as u64 {
        assert forall|j: int|
            is_lowest(old(slices).slices@, j, HeaderSliceStatus::Verified) implies old(
                store,
            ).records@.len() != old(slices).slices@[j].start_block_num by {
            assert(j == i);
        }
        return Ok(None);
    }
    let prev: u128 = if store.records.len() == 0 {
        0
    } else {
        store.records[store.records.len() - 1].total_difficulty
    };
    let ghost hs = slices.slices@[i as int].headers->0@;
    let mut fresh: Vec<SavedHeader> = Vec::new();
    let mut td: u128 = prev;
    let mut j: usize = 0;
    match &slices.slices[i].headers {
        None => {
            return Ok(None);
        },
        Some(headers) => {
            while j < HEADER_SLICE_SIZE as usize
                invariant
                    headers@ == hs,
                    hs == old(slices).slices@[i as int].headers->0@,
                    hs.len() == HEADER_SLICE_SIZE + 1,
                    slices.slices@ == old(slices).slices@,
                    same_frame(slices, old(slices)),
                    slices.wf(),
                    store.records@ == old(store).records@,
                    is_lowest(old(slices).slices@, i as int, HeaderSliceStatus::Verified),
                    old(store).records@.len() == old(slices).slices@[i as int].start_block_num,
                    prev == tip_difficulty(old(store).records@),
                    j <= HEADER_SLICE_SIZE,
                    td == prev + difficulty_sum(hs, j as int),
                    fresh@ =~= saved_records(hs, prev as int).subrange(0, j as int),
                decreases HEADER_SLICE_SIZE - j,
            {
                let d = headers[j].difficulty;
                if d > u128::MAX - td {
                    proof {
                        lemma_difficulty_sum_monotonic(hs, j + 1, HEADER_SLICE_SIZE as int);
                    }
                    return Err(SaveError::TotalDifficultyOverflow);
                }
                td = td + d;
                fresh.push(SavedHeader { hash: headers[j].hash, total_difficulty: td });
                j += 1;
            }
        },
    }
    assert(fresh@ =~= saved_records(hs, prev as int));
    let mut k: usize = 0;
    let ghost base = store.records@;
    while k < fresh.len()
        invariant
            k <= fresh@.len(),
            store.records@ =~= base + fresh@.subrange(0, k as int),
        decreases fresh@.len() - k,
    {
        store.records.push(fresh[k]);
        k += 1;
    }
    assert(fresh@.subrange(0, k as int) =~= fresh@);
    slices.slices[i].status = HeaderSliceStatus::Saved;
    Ok(Some(i))
}

/// Changing one slice changes the count of a status by what left and what
/// came.
pub proof fn lemma_count_update(s: Seq<HeaderSlice>, i: int, x: HeaderSlice, st: HeaderSliceStatus)
    requires
        0 <= i < s.len(),
    ensures
        count_status(s.update(i, x), st) == count_status(s, st) - (if s[i].status == st {
            1int
        } else {
            0int
        }) + (if x.status == st {
            1int
        } else {
            0int
        }),
    decreases s.len(),
{
    let t = s.update(i, x);
    if i == s.len() - 1 {
        assert(t.drop_last() =~= s.drop_last());
    } else {
        assert(t.drop_last() =~= s.drop_last().update(i, x));
        lemma_count_update(s.drop_last(), i, x, st);
    }
}

/// Changing a slice from and to statuses other than `st` leaves the lowest
/// slice in `st` where it was.
pub proof fn lemma_lowest_update(s: Seq<HeaderSlice>, i: int, x: HeaderSlice, st: HeaderSliceStatus)
    requires
        0 <= i < s.len(),
        s[i].status != st,
        x.status != st,
    ensures
        forall|j: int| #[trigger] is_lowest(s.update(i, x), j, st) <==> is_lowest(s, j, st),
{
    let t = s.update(i, x);
    assert forall|j: int| #[trigger] is_lowest(t, j, st) <==> is_lowest(s, j, st) by {
        if is_lowest(t, j, st) {
            assert forall|k: int| 0 <= k < j implies (#[trigger] s[k]).status != st by {
                if k != i {
                    assert(t[k] == s[k]);
                }
            }
        }
        if is_lowest(s, j, st) {
            assert forall|k: int| 0 <= k < j implies (#[trigger] t[k]).status != st by {
                if k != i {
                    assert(t[k] == s[k]);
                }
            }
        }
    }
}

/// Highest of `best` and the numbers in `s`.
pub open spec fn highest(best: Option<BlockNumber>, s: Seq<BlockNumber>) -> Option<BlockNumber>
    decreases s.len(),
{
    if s.len() == 0 {
        best
    } else {
        let b = highest(best, s.drop_last());
        if b is Some && b->0 >= s.last() {
            b
        } else {
            Some(s.last())
        }
    }
}

/// The highest block number that peers have announced.
#[derive(Clone, Copy, Debug)]
pub struct TopBlockEstimate {
    pub estimate: Option<BlockNumber>,
}

impl TopBlockEstimate {
    pub fn new() -> (r: Self)
        ensures
            r.estimate is None,
    {
        TopBlockEstimate { estimate: None }
    }

    /// Takes in the block numbers of a `NewBlockHashes` announcement.
    pub fn observe(&mut self, numbers: &Vec<BlockNumber>)
        ensures
            final(self).estimate == highest(old(self).estimate, numbers@),
    {
        let mut i: usize = 0;
        while i < numbers.len()
            invariant
                i <= numbers@.len(),
                self.estimate == highest(old(self).estimate, numbers@.subrange(0, i as int)),
            decreases numbers@.len() - i,
        {
            assert(numbers@.subrange(0, i + 1).drop_last() =~= numbers@.subrange(0, i as int));
            let n = numbers[i];
            match self.estimate {
                Some(b) if b >= n => {},
                _ => {
                    self.estimate = Some(n);
                },
            }
            i += 1;
        }
        assert(numbers@.subrange(0, i as int) =~= numbers@);
    }
}

} // verus!

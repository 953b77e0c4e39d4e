use vstd::prelude::*;
use crate::types::{BlockNumber, H256, PeerId};

verus! {

/// Number of headers in one slice.
pub const HEADER_SLICE_SIZE: u64 = 192;

/// Estimated memory held by one header in a slice.
pub const HEADER_MEM_SIZE: usize = 512;

/// Memory held by one slice: its headers and the next slice's anchor.
pub const HEADER_SLICE_MEM_SIZE: usize = 193 * HEADER_MEM_SIZE;

/// Time after which an unanswered request is sent again.
pub const REQUEST_TIMEOUT: u64 = 5000;

/// Number of timeouts after which a slice is given up as invalid.
pub const MAX_ATTEMPTS: u64 = 3;

/// Highest block number that a window may reach.
pub const MAX_FINAL_BLOCK_NUM: u64 = 0xffff_ffff_ffff_ff00;

/// Where a slice stands in the download pipeline.
#[derive(Clone, Copy, Debug, PartialEq, Eq, Structural)]
pub enum HeaderSliceStatus {
    Empty,
    Waiting,
    Downloaded,
    VerifiedInternally,
    Verified,
    Saved,
    Refilled,
    Invalid,
}

/// Position of a status in the lattice; `Invalid` sits above every other.
pub open spec fn status_rank(s: HeaderSliceStatus) -> nat {
    match s {
        HeaderSliceStatus::Empty => 0,
        HeaderSliceStatus::Waiting => 1,
        HeaderSliceStatus::Downloaded => 2,
        HeaderSliceStatus::VerifiedInternally => 3,
        HeaderSliceStatus::Verified => 4,
        HeaderSliceStatus::Saved => 5,
        HeaderSliceStatus::Refilled => 6,
        HeaderSliceStatus::Invalid => 7,
    }
}

/// The edges of the status lattice.
///
/// `Waiting -> Empty` is a retry after a timeout, `Invalid -> Empty` the
/// reset after a peer was penalized; every other edge moves up.
pub open spec fn can_transition(from: HeaderSliceStatus, to: HeaderSliceStatus) -> bool {
    match (from, to) {
        (HeaderSliceStatus::Empty, HeaderSliceStatus::Waiting) => true,
        (HeaderSliceStatus::Waiting, HeaderSliceStatus::Downloaded) => true,
        (HeaderSliceStatus::Waiting, HeaderSliceStatus::Empty) => true,
        (HeaderSliceStatus::Waiting, HeaderSliceStatus::Invalid) => true,
        (HeaderSliceStatus::Downloaded, HeaderSliceStatus::VerifiedInternally) => true,
        (HeaderSliceStatus::Downloaded, HeaderSliceStatus::Verified) => true,
        (HeaderSliceStatus::Downloaded, HeaderSliceStatus::Invalid) => true,
        (HeaderSliceStatus::VerifiedInternally, HeaderSliceStatus::Verified) => true,
        (HeaderSliceStatus::VerifiedInternally, HeaderSliceStatus::Invalid) => true,
        (HeaderSliceStatus::Verified, HeaderSliceStatus::Saved) => true,
        (HeaderSliceStatus::Saved, HeaderSliceStatus::Refilled) => true,
        (HeaderSliceStatus::Invalid, HeaderSliceStatus::Empty) => true,
        _ => false,
    }
}

/// The statuses in which a slice holds its downloaded headers.
pub open spec fn holds_headers(s: HeaderSliceStatus) -> bool {
    s == HeaderSliceStatus::Downloaded || s == HeaderSliceStatus::VerifiedInternally
        || s == HeaderSliceStatus::Verified || s == HeaderSliceStatus::Saved
}

/// The transitions that `set_slice_status` performs: entering `Downloaded`
/// needs headers, which only `accept_headers` brings.
pub open spec fn settable(from: HeaderSliceStatus, to: HeaderSliceStatus) -> bool {
    can_transition(from, to) && to != HeaderSliceStatus::Downloaded
}

/// The fields of a block header that the pipeline reads.
#[derive(Clone, Copy, Debug)]
pub struct BlockHeader {
    pub number: BlockNumber,
    pub hash: H256,
    pub parent_hash: H256,
    pub difficulty: u128,
}

/// Headers numbered `start, start + 1, ...`, each the parent of the next.
pub open spec fn chain_linked(hs: Seq<BlockHeader>, start: int) -> bool {
    &&& forall|i: int| 0 <= i < hs.len() ==> #[trigger] hs[i].number == start + i
    &&& forall|i: int| 0 <= i < hs.len() - 1 ==> #[trigger] hs[i + 1].parent_hash == hs[i].hash
}

/// A response that fills the slice starting at `start`: one header more than
/// a slice, so that the next slice's anchor comes with it.
pub open spec fn headers_fit(hs: Seq<BlockHeader>, start: int) -> bool {
    hs.len() == HEADER_SLICE_SIZE + 1 && chain_linked(hs, start)
}

/// A window entry: a run of `HEADER_SLICE_SIZE` headers and its progress.
#[derive(Debug)]
pub struct HeaderSlice {
    pub start_block_num: BlockNumber,
    pub status: HeaderSliceStatus,
    pub headers: Option<Vec<BlockHeader>>,
    pub request_time: u64,
    pub request_attempt: u64,
    pub from_peer_id: Option<PeerId>,
}

impl HeaderSlice {
    pub open spec fn wf(&self) -> bool {
        &&& self.start_block_num % HEADER_SLICE_SIZE == 0
        &&& self.request_attempt <= MAX_ATTEMPTS
        &&& holds_headers(self.status) ==> self.headers is Some && headers_fit(
            self.headers->0@,
            self.start_block_num as int,
        )
    }

    /// A slice that has not been asked for yet.
    pub open spec fn is_fresh(&self, start: int) -> bool {
        &&& self.start_block_num == start
        &&& self.status == HeaderSliceStatus::Empty
        &&& self.headers is None
        &&& self.request_time == 0
        &&& self.request_attempt == 0
        &&& self.from_peer_id is None
    }

    /// A fresh slice starting at `start`.
    pub fn new_empty(start: BlockNumber) -> (r: Self)
        ensures
            r.is_fresh(start as int),
    {
        HeaderSlice {
            start_block_num: start,
            status: HeaderSliceStatus::Empty,
            headers: None,
            request_time: 0,
            request_attempt: 0,
            from_peer_id: None,
        }
    }
}

/// Why a status change was refused.
#[derive(Clone, Copy, Debug, PartialEq, Eq, Structural)]
pub enum SliceError {
    OutOfWindow,
    IllegalTransition,
}

/// The window of slices being downloaded, lowest first.
#[derive(Debug)]
pub struct HeaderSlices {
    pub slices: Vec<HeaderSlice>,
    pub max_slices: usize,
    pub start_block_num: BlockNumber,
    pub final_block_num: BlockNumber,
}

/// Number of slices in `s` with status `st`.
pub open spec fn count_status(s: Seq<HeaderSlice>, st: HeaderSliceStatus) -> nat
    decreases s.len(),
{
    if s.len() == 0 {
        0
    } else {
        count_status(s.drop_last(), st) + if s.last().status == st {
            1nat
        } else {
            0nat
        }
    }
}

/// Number of slices at the front of `s` that are `Refilled`.
pub open spec fn leading_refilled(s: Seq<HeaderSlice>) -> nat
    decreases s.len(),
{
    if s.len() > 0 && s[0].status == HeaderSliceStatus::Refilled {
        1 + leading_refilled(s.drop_first())
    } else {
        0
    }
}

impl HeaderSlices {
    /// Slice `i` starts `i` slices above the window's start.
    pub open spec fn slice_start(&self, i: int) -> int {
        self.start_block_num + HEADER_SLICE_SIZE * i
    }

    /// The window holds as many slices as memory allows, or reaches the end.
    pub open spec fn window_full(&self) -> bool {
        self.slices@.len() == self.max_slices || self.slice_start(self.slices@.len() as int)
            >= self.final_block_num
    }

    pub open spec fn wf(&self) -> bool {
        &&& self.start_block_num % HEADER_SLICE_SIZE == 0
        &&& self.final_block_num <= MAX_FINAL_BLOCK_NUM
        &&& self.start_block_num <= MAX_FINAL_BLOCK_NUM + HEADER_SLICE_SIZE
        &&& self.slices@.len() <= self.max_slices
        &&& forall|i: int|
            0 <= i < self.slices@.len() ==> {
                &&& (#[trigger] self.slices@[i]).wf()
                &&& self.slices@[i].start_block_num == self.slice_start(i)
                &&& self.slices@[i].start_block_num < self.final_block_num
            }
        &&& self.window_full()
    }

    /// A window over `[start_block_num, final_block_num)` sized to `mem_limit`.
    pub fn new(mem_limit: usize, start_block_num: BlockNumber, final_block_num: BlockNumber) -> (r:
        Self)
        requires
            start_block_num % HEADER_SLICE_SIZE == 0,
            start_block_num <= MAX_FINAL_BLOCK_NUM,
            final_block_num <= MAX_FINAL_BLOCK_NUM,
        ensures
            r.wf(),
            r.max_slices == mem_limit / HEADER_SLICE_MEM_SIZE,
            r.start_block_num == start_block_num,
            r.final_block_num == final_block_num,
            forall|i: int| 0 <= i < r.slices@.len() ==> (#[trigger] r.slices@[i]).is_fresh(r.slice_start(i)),
    {
        let max_slices = mem_limit / HEADER_SLICE_MEM_SIZE;
        let mut slices: Vec<HeaderSlice> = Vec::new();
        let mut next: u64 = start_block_num;
        let mut more: bool = next < final_block_num;
        while more && slices.len() < max_slices
            invariant
                slices@.len() <= max_slices,
                more ==> next == start_block_num + HEADER_SLICE_SIZE * slices@.len() && next
                    < final_block_num,
                !more ==> start_block_num + HEADER_SLICE_SIZE * slices@.len() >= final_block_num,
                start_block_num % HEADER_SLICE_SIZE == 0,
                forall|i: int| 0 <= i < slices@.len() ==> {
                    &&& (#[trigger] slices@[i]).is_fresh(start_block_num + HEADER_SLICE_SIZE * i)
                    &&& slices@[i].start_block_num < final_block_num
                },
            decreases max_slices - slices@.len(),
        {
            slices.push(HeaderSlice::new_empty(next));
            if final_block_num - next <= HEADER_SLICE_SIZE {
                more = false;
            } else {
                next = next + HEADER_SLICE_SIZE;
            }
        }
        let r = HeaderSlices { slices, max_slices, start_block_num, final_block_num };
        assert(r.window_full());
        r
    }

    /// The lowest slice with status `status`.
    pub fn find_by_status(&self, status: HeaderSliceStatus) -> (r: Option<usize>)
        ensures
            match r {
                Some(i) => i < self.slices@.len() && self.slices@[i as int].status == status
                    && forall|j: int| 0 <= j < i ==> (#[trigger] self.slices@[j]).status != status,
                None => forall|j: int|
                    0 <= j < self.slices@.len() ==> (#[trigger] self.slices@[j]).status != status,
            },
    {
        let mut i: usize = 0;
        while i < self.slices.len()
            invariant
                i <= self.slices@.len(),
                forall|j: int| 0 <= j < i ==> (#[trigger] self.slices@[j]).status != status,
            decreases self.slices@.len() - i,
        {
            if self.slices[i].status == status {
                return Some(i);
            }
            i += 1;
        }
        None
    }

    /// Number of slices with status `status`.
    pub fn count_by_status(&self, status: HeaderSliceStatus) -> (r: usize)
        ensures
            r == count_status(self.slices@, status),
    {
        let mut i: usize = 0;
        let mut n: usize = 0;
        while i < self.slices.len()
            invariant
                i <= self.slices@.len(),
                n == count_status(self.slices@.subrange(0, i as int), status),
                n <= i,
            decreases self.slices@.len() - i,
        {
            assert(self.slices@.subrange(0, i + 1).drop_last() =~= self.slices@.subrange(0, i as int));
            if self.slices[i].status == status {
                n += 1;
            }
            i += 1;
        }
        assert(self.slices@.subrange(0, i as int) =~= self.slices@);
        n
    }

    /// Moves slice `idx` to `new_status`, refusing an edge outside the lattice.
    pub fn set_slice_status(&mut self, idx: usize, new_status: HeaderSliceStatus) -> (r: Result<
        (),
        SliceError,
    >)
        requires
            old(self).wf(),
        ensures
            final(self).wf(),
            idx >= old(self).slices@.len() ==> r == Err::<(), SliceError>(SliceError::OutOfWindow),
            idx < old(self).slices@.len() && !settable(old(self).slices@[idx as int].status, new_status)
                ==> r == Err::<(), SliceError>(SliceError::IllegalTransition),
            r is Ok <==> idx < old(self).slices@.len() && settable(
                old(self).slices@[idx as int].status,
                new_status,
            ),
            r is Ok ==> final(self).slices@ == old(self).slices@.update(
                idx as int,
                HeaderSlice { status: new_status, ..old(self).slices@[idx as int] },
            ),
            r is Err ==> final(self).slices@ == old(self).slices@,
            final(self).max_slices == old(self).max_slices,
            final(self).start_block_num == old(self).start_block_num,
            final(self).final_block_num == old(self).final_block_num,
    {
        if idx >= self.slices.len() {
            return Err(SliceError::OutOfWindow);
        }
        if !can_move(self.slices[idx].status, new_status) {
            return Err(SliceError::IllegalTransition);
        }
        self.slices[idx].status = new_status;
        Ok(())
    }

    /// Drops the `Refilled` slices at the bottom of the window and tops the
    /// window up with fresh slices; returns how many were dropped.
    pub fn slide_window_if_possible(&mut self) -> (r: usize)
        requires
            old(self).wf(),
        ensures
            final(self).wf(),
            r == leading_refilled(old(self).slices@),
            final(self).start_block_num == old(self).start_block_num + HEADER_SLICE_SIZE * r,
            final(self).max_slices == old(self).max_slices,
            final(self).final_block_num == old(self).final_block_num,
            final(self).slices@.len() >= old(self).slices@.len() - r,
            forall|i: int|
                0 <= i < old(self).slices@.len() - r ==> final(self).slices@[i] == old(
                    self,
                ).slices@[i + r],
            forall|i: int|
                old(self).slices@.len() - r <= i < final(self).slices@.len() ==> (
                #[trigger] final(self).slices@[i]).is_fresh(final(self).slice_start(i)),
    {
        let ghost orig = self.slices@;
        let orig_len: usize = self.slices.len();
        let mut dropped: usize = 0;
        proof {
            lemma_leading_refilled_bound(orig);
        }
        while self.slices.len() > 0 && self.slices[0].status == HeaderSliceStatus::Refilled
            invariant
                dropped <= orig_len,
                orig.len() == orig_len,
                self.slices@ == orig.subrange(dropped as int, orig.len() as int),
                dropped + leading_refilled(self.slices@) == leading_refilled(orig),
                self.start_block_num == old(self).start_block_num + HEADER_SLICE_SIZE * dropped,
                self.start_block_num % HEADER_SLICE_SIZE == 0,
                self.max_slices == old(self).max_slices,
                self.final_block_num == old(self).final_block_num,
                self.final_block_num <= MAX_FINAL_BLOCK_NUM,
                self.start_block_num <= MAX_FINAL_BLOCK_NUM + HEADER_SLICE_SIZE,
                self.slices@.len() <= self.max_slices,
                forall|i: int|
                    0 <= i < self.slices@.len() ==> {
                        &&& (#[trigger] self.slices@[i]).wf()
                        &&& self.slices@[i].start_block_num == self.slice_start(i)
                        &&& self.slices@[i].start_block_num < self.final_block_num
                    },
            decreases self.slices@.len(),
        {
            assert(self.slices@.drop_first() =~= orig.subrange(dropped + 1, orig.len() as int));
            assert(dropped < orig_len);
            self.slices.remove(0);
            self.start_block_num = self.start_block_num + HEADER_SLICE_SIZE;
            dropped += 1;
        }
        let ghost kept = self.slices@;
        assert(leading_refilled(kept) == 0);
        assert(forall|i: int| 0 <= i < kept.len() ==> kept[i] == orig[i + dropped]);
        let top: u64 = if self.slices.len() == 0 {
            self.start_block_num
        } else {
            self.slices[self.slices.len() - 1].start_block_num + HEADER_SLICE_SIZE
        };
        assert(top == self.slice_start(self.slices@.len() as int));
        let mut more: bool = top < self.final_block_num;
        while more && self.slices.len() < self.max_slices
            invariant
                self.slices@.len() <= self.max_slices,
                self.slices@.len() >= kept.len(),
                forall|i: int| 0 <= i < kept.len() ==> self.slices@[i] == kept[i],
                forall|i: int|
                    kept.len() <= i < self.slices@.len() ==> (#[trigger] self.slices@[i]).is_fresh(
                        self.slice_start(i),
                    ),
                more ==> self.slice_start(self.slices@.len() as int) < self.final_block_num,
                !more ==> self.slice_start(self.slices@.len() as int) >= self.final_block_num,
                self.start_block_num == old(self).start_block_num + HEADER_SLICE_SIZE * dropped,
                self.start_block_num % HEADER_SLICE_SIZE == 0,
                self.max_slices == old(self).max_slices,
                self.final_block_num == old(self).final_block_num,
                self.final_block_num <= MAX_FINAL_BLOCK_NUM,
                self.start_block_num <= MAX_FINAL_BLOCK_NUM + HEADER_SLICE_SIZE,
                forall|i: int|
                    0 <= i < self.slices@.len() ==> {
                        &&& (#[trigger] self.slices@[i]).wf()
                        &&& self.slices@[i].start_block_num == self.slice_start(i)
                        &&& self.slices@[i].start_block_num < self.final_block_num
                    },
            decreases self.max_slices - self.slices@.len(),
        {
            let next: u64 = self.start_block_num + HEADER_SLICE_SIZE * (self.slices.len() as u64);
            self.slices.push(HeaderSlice::new_empty(next));
            if self.final_block_num - next <= HEADER_SLICE_SIZE {
                more = false;
            }
        }
        assert forall|i: int| 0 <= i < orig.len() - dropped implies self.slices@[i] == orig[i
            + dropped] by {
            assert(self.slices@[i] == kept[i]);
        }
        dropped
    }

    /// All slices have been saved and dropped, and no block is left to fetch.
    pub fn is_empty_at_final_position(&self) -> (r: bool)
        ensures
            r == (self.slices@.len() == 0 && self.start_block_num >= self.final_block_num),
    {
        self.slices.len() == 0 && self.start_block_num >= self.final_block_num
    }
}

/// Whether `set_slice_status` may move a slice from `from` to `to`.
pub fn can_move(from: HeaderSliceStatus, to: HeaderSliceStatus) -> (r: bool)
    ensures
        r == settable(from, to),
{
    match (from, to) {
        (HeaderSliceStatus::Empty, HeaderSliceStatus::Waiting) => true,
        (HeaderSliceStatus::Waiting, HeaderSliceStatus::Empty) => true,
        (HeaderSliceStatus::Waiting, HeaderSliceStatus::Invalid) => true,
        (HeaderSliceStatus::Downloaded, HeaderSliceStatus::VerifiedInternally) => true,
        (HeaderSliceStatus::Downloaded, HeaderSliceStatus::Verified) => true,
        (HeaderSliceStatus::Downloaded, HeaderSliceStatus::Invalid) => true,
        (HeaderSliceStatus::VerifiedInternally, HeaderSliceStatus::Verified) => true,
        (HeaderSliceStatus::VerifiedInternally, HeaderSliceStatus::Invalid) => true,
        (HeaderSliceStatus::Verified, HeaderSliceStatus::Saved) => true,
        (HeaderSliceStatus::Saved, HeaderSliceStatus::Refilled) => true,
        (HeaderSliceStatus::Invalid, HeaderSliceStatus::Empty) => true,
        _ => false,
    }
}

/// The slices that a slide drops are all `Refilled`.
pub proof fn lemma_leading_refilled_prefix(s: Seq<HeaderSlice>)
    ensures
        forall|k: int| 0 <= k < leading_refilled(s) ==> (#[trigger] s[k]).status == HeaderSliceStatus::Refilled,
    decreases s.len(),
{
    lemma_leading_refilled_bound(s);
    if s.len() > 0 && s[0].status == HeaderSliceStatus::Refilled {
        lemma_leading_refilled_prefix(s.drop_first());
        assert forall|k: int| 0 <= k < leading_refilled(s) implies (#[trigger] s[k]).status == HeaderSliceStatus::Refilled by {
            if k > 0 {
                assert(s[k] == s.drop_first()[k - 1]);
            }
        }
    }
}

proof fn lemma_leading_refilled_bound(s: Seq<HeaderSlice>)
    ensures
        leading_refilled(s) <= s.len(),
    decreases s.len(),
{
    if s.len() > 0 && s[0].status == HeaderSliceStatus::Refilled {
        lemma_leading_refilled_bound(s.drop_first());
    }
}

/// In a well-formed window the slices are sorted by start and do not overlap.
pub proof fn lemma_slices_ordered(s: &HeaderSlices)
    requires
        s.wf(),
    ensures
        forall|i: int, j: int|
            0 <= i < j < s.slices@.len() ==> (#[trigger] s.slices@[i]).start_block_num
                + HEADER_SLICE_SIZE <= (#[trigger] s.slices@[j]).start_block_num,
{
}

/// Every edge of the lattice moves up, but for the two resets to `Empty`:
/// a retry after a timeout and the reset of an invalid slice.
pub proof fn lemma_status_monotonic(from: HeaderSliceStatus, to: HeaderSliceStatus)
    requires
        can_transition(from, to),
        !(from == HeaderSliceStatus::Invalid && to == HeaderSliceStatus::Empty),
        !(from == HeaderSliceStatus::Waiting && to == HeaderSliceStatus::Empty),
    ensures
        status_rank(from) < status_rank(to),
{
}

} // verus!

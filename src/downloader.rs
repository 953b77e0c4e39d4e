use vstd::prelude::*;
use crate::header_slices::{
    count_status, lemma_leading_refilled_prefix, BlockHeader, HeaderSlice, HeaderSliceStatus,
    HeaderSlices, HEADER_SLICE_SIZE, MAX_FINAL_BLOCK_NUM,
};
use crate::stages::{
    accept_headers, difficulty_sum, fetch_request, has_status, highest, is_lowest,
    lemma_count_update, lemma_lowest_update, penalize, refill, request_for, retry_timed_out,
    save_slice, tip_difficulty, verify_slice, FetchRequest, HeaderStore, PreverifiedHashesConfig,
    SaveError, TopBlockEstimate, MAX_INFLIGHT,
};
use crate::types::{BlockNumber, H256, PeerId};

verus! {

/// A block identified by both its number and its hash.
#[derive(Clone, Copy, Debug)]
pub struct BlockHashAndNumber {
    pub number: BlockNumber,
    pub hash: H256,
}

/// What a download run reached.
#[derive(Clone, Copy, Debug)]
pub struct DownloaderPreverifiedReport {
    pub final_block_id: BlockHashAndNumber,
    pub estimated_top_block_num: Option<BlockNumber>,
}

/// Downloads the headers anchored by a chain's preverified hashes.
#[derive(Debug)]
pub struct DownloaderPreverified {
    pub chain_name: String,
    pub mem_limit: usize,
}

/// Why a download could not start or went on no further.
#[derive(Clone, Copy, Debug, PartialEq, Eq, Structural)]
pub enum DownloadError {
    NoPreverifiedHashes,
    TooManyPreverifiedHashes,
    TotalDifficultyOverflow,
}

/// What happened since the last step.
#[derive(Debug)]
pub enum PipelineEvent {
    Tick { now: u64 },
    BlockHeaders { headers: Vec<BlockHeader>, peer: PeerId },
    NewBlockHashes { numbers: Vec<BlockNumber> },
}

/// The top-block estimate after `event`: raised by announced numbers.
pub open spec fn estimate_after(est: Option<BlockNumber>, event: &PipelineEvent) -> Option<BlockNumber> {
    match *event {
        PipelineEvent::NewBlockHashes { numbers } => highest(est, numbers@),
        _ => est,
    }
}

/// The pipeline's clock after `event`: set by a tick.
pub open spec fn time_after(now: u64, event: &PipelineEvent) -> u64 {
    match *event {
        PipelineEvent::Tick { now } => now,
        _ => now,
    }
}

/// `req` asks for a slice of `sl` that waits since `now`.
pub open spec fn requested(sl: Seq<HeaderSlice>, now: u64, req: FetchRequest) -> bool {
    exists|i: int|
        0 <= i < sl.len() && (#[trigger] sl[i]).status == HeaderSliceStatus::Waiting
            && sl[i].request_time == now && req == request_for(sl[i].start_block_num)
}

/// `p` delivered headers: it is credited with a slice of `sl`, or it sent
/// the headers of `event`.
pub open spec fn delivered(sl: Seq<HeaderSlice>, event: &PipelineEvent, p: PeerId) -> bool {
    (exists|i: int| 0 <= i < sl.len() && (#[trigger] sl[i]).from_peer_id == Some(p)) || match *event {
        PipelineEvent::BlockHeaders { headers, peer } => peer == p,
        _ => false,
    }
}

/// Every peer credited in `sl` delivered headers by `orig` and `event`.
pub open spec fn credits_delivered(sl: Seq<HeaderSlice>, orig: Seq<HeaderSlice>, event: &PipelineEvent) -> bool {
    forall|k: int|
        0 <= k < sl.len() && (#[trigger] sl[k]).from_peer_id is Some ==> delivered(
            orig,
            event,
            sl[k].from_peer_id->0,
        )
}

proof fn lemma_credits_update(
    sl: Seq<HeaderSlice>,
    i: int,
    x: HeaderSlice,
    orig: Seq<HeaderSlice>,
    event: &PipelineEvent,
)
    requires
        0 <= i < sl.len(),
        credits_delivered(sl, orig, event),
        x.from_peer_id == sl[i].from_peer_id || x.from_peer_id is None,
    ensures
        credits_delivered(sl.update(i, x), orig, event),
{
    let t = sl.update(i, x);
    assert forall|k: int| 0 <= k < t.len() && (#[trigger] t[k]).from_peer_id is Some implies delivered(
        orig,
        event,
        t[k].from_peer_id->0,
    ) by {
        if k != i {
            assert(t[k] == sl[k]);
        } else {
            assert(sl[i].from_peer_id is Some);
        }
    }
}

/// What the caller is to do after a step.
#[derive(Debug)]
pub struct StepOutput {
    pub requests: Vec<FetchRequest>,
    pub penalties: Vec<PeerId>,
    pub finished: bool,
}

/// The state of one download run.
#[derive(Debug)]
pub struct HeaderPipeline {
    pub slices: HeaderSlices,
    pub config: PreverifiedHashesConfig,
    pub store: HeaderStore,
    pub estimate: TopBlockEstimate,
    pub final_block_id: BlockHashAndNumber,
    pub now: u64,
}

impl HeaderPipeline {
    pub open spec fn wf(&self) -> bool {
        &&& self.slices.wf()
        &&& self.final_block_id.number == self.slices.final_block_num
    }

    /// The report of the run so far.
    pub fn report(&self) -> (r: DownloaderPreverifiedReport)
        ensures
            r.final_block_id == self.final_block_id,
            r.estimated_top_block_num == self.estimate.estimate,
    {
        DownloaderPreverifiedReport {
            final_block_id: self.final_block_id,
            estimated_top_block_num: self.estimate.estimate,
        }
    }

    /// Applies `event`, then lets every stage work until it has nothing left
    /// to do: verify, penalize, save, refill, slide the window, request.
    ///
    /// Afterwards no slice waits to be verified, penalized or refilled, and
    /// the lowest verified slice, if any, does not continue the saved chain.
    /// Requests go out until `MAX_INFLIGHT` slices wait or none is empty.
    /// The step fails only when saving would overflow the total difficulty;
    /// then nothing of that slice is written. The run is over when the step
    /// says `finished`: every slice up to the final block has been saved and
    /// dropped.
    pub fn step(&mut self, event: PipelineEvent) -> (r: Result<StepOutput, DownloadError>)
        requires
            old(self).wf(),
        ensures
            final(self).wf(),
            final(self).final_block_id == old(self).final_block_id,
            final(self).config.hashes@ == old(self).config.hashes@,
            final(self).slices.final_block_num == old(self).slices.final_block_num,
            final(self).slices.max_slices == old(self).slices.max_slices,
            final(self).slices.start_block_num >= old(self).slices.start_block_num,
            final(self).estimate.estimate == estimate_after(old(self).estimate.estimate, &event),
            final(self).now == time_after(old(self).now, &event),
            final(self).store.records@.len() >= old(self).store.records@.len(),
            final(self).store.records@.subrange(0, old(self).store.records@.len() as int) == old(
                self,
            ).store.records@,
            r is Err ==> {
                &&& r == Err::<StepOutput, DownloadError>(DownloadError::TotalDifficultyOverflow)
                &&& exists|i: int|
                    {
                        let s = final(self).slices.slices@[i];
                        &&& #[trigger] is_lowest(final(self).slices.slices@, i, HeaderSliceStatus::Verified)
                        &&& final(self).store.records@.len() == s.start_block_num
                        &&& tip_difficulty(final(self).store.records@) + difficulty_sum(
                            s.headers->0@,
                            HEADER_SLICE_SIZE as int,
                        ) > u128::MAX
                    }
            },
            r matches Ok(out) ==> {
                let sl = final(self).slices.slices@;
                &&& forall|k: int|
                    0 <= k < sl.len() ==> {
                        &&& (#[trigger] sl[k]).status != HeaderSliceStatus::Downloaded
                        &&& sl[k].status != HeaderSliceStatus::Invalid
                        &&& sl[k].status != HeaderSliceStatus::Saved
                    }
                &&& forall|j: int|
                    #[trigger] is_lowest(sl, j, HeaderSliceStatus::Verified)
                        ==> final(self).store.records@.len() != sl[j].start_block_num
                &&& !(count_status(sl, HeaderSliceStatus::Waiting) < MAX_INFLIGHT && has_status(
                    sl,
                    HeaderSliceStatus::Empty,
                ))
                &&& forall|m: int|
                    0 <= m < out.requests@.len() ==> requested(sl, final(self).now, #[trigger] out.requests@[m])
                &&& forall|m: int|
                    0 <= m < out.penalties@.len() ==> delivered(
                        old(self).slices.slices@,
                        &event,
                        #[trigger] out.penalties@[m],
                    )
                &&& out.finished == (sl.len() == 0 && final(self).slices.start_block_num
                    >= final(self).slices.final_block_num)
            },
    {
        let ghost est = estimate_after(old(self).estimate.estimate, &event);
        let ghost now = time_after(old(self).now, &event);
        match event {
            PipelineEvent::Tick { now } => {
                self.now = now;
                retry_timed_out(&mut self.slices, now);
            },
            PipelineEvent::BlockHeaders { headers, peer } => {
                accept_headers(&mut self.slices, headers, peer);
            },
            PipelineEvent::NewBlockHashes { numbers } => {
                self.estimate.observe(&numbers);
            },
        }
        assert(self.estimate.estimate == est);
        assert(self.now == now);
        let ghost orig = old(self).slices.slices@;
        proof {
            let sl = self.slices.slices@;
            assert forall|k: int| 0 <= k < sl.len() && (#[trigger] sl[k]).from_peer_id is Some implies delivered(
                orig,
                &event,
                sl[k].from_peer_id->0,
            ) by {
                if sl[k].from_peer_id != orig[k].from_peer_id {
                    assert(event is BlockHeaders);
                } else {
                    assert(orig[k].from_peer_id == Some(sl[k].from_peer_id->0));
                }
            }
        }
        let ghost old_records = old(self).store.records@;
        let ghost base = self.slices.start_block_num;
        assert(self.store.records@.subrange(0, old_records.len() as int) =~= old_records);
        loop
            invariant
                self.wf(),
                self.final_block_id == old(self).final_block_id,
                self.config.hashes@ == old(self).config.hashes@,
                self.slices.final_block_num == old(self).slices.final_block_num,
                self.slices.max_slices == old(self).slices.max_slices,
                self.slices.start_block_num == base,
                base >= old(self).slices.start_block_num,
                self.estimate.estimate == est,
                self.now == now,
                est == estimate_after(old(self).estimate.estimate, &event),
                now == time_after(old(self).now, &event),
                old_records == old(self).store.records@,
                orig == old(self).slices.slices@,
                credits_delivered(self.slices.slices@, orig, &event),
                self.store.records@ == old_records,
            ensures
                forall|k: int|
                    0 <= k < self.slices.slices@.len() ==> (#[trigger] self.slices.slices@[k]).status
                        != HeaderSliceStatus::Downloaded,
            decreases count_status(self.slices.slices@, HeaderSliceStatus::Downloaded),
        {
            let ghost before = self.slices.slices@;
            match verify_slice(&mut self.slices, &self.config) {
                None => break,
                Some(i) => {
                    proof {
                        lemma_count_update(before, i as int, self.slices.slices@[i as int], HeaderSliceStatus::Downloaded);
                        lemma_credits_update(before, i as int, self.slices.slices@[i as int], orig, &event);
                    }
                },
            }
        }
        let mut penalties: Vec<PeerId> = Vec::new();
        loop
            invariant
                forall|m: int| 0 <= m < penalties@.len() ==> delivered(orig, &event, #[trigger] penalties@[m]),
                self.wf(),
                self.final_block_id == old(self).final_block_id,
                self.config.hashes@ == old(self).config.hashes@,
                self.slices.final_block_num == old(self).slices.final_block_num,
                self.slices.max_slices == old(self).slices.max_slices,
                self.slices.start_block_num == base,
                base >= old(self).slices.start_block_num,
                self.estimate.estimate == est,
                self.now == now,
                est == estimate_after(old(self).estimate.estimate, &event),
                now == time_after(old(self).now, &event),
                old_records == old(self).store.records@,
                orig == old(self).slices.slices@,
                credits_delivered(self.slices.slices@, orig, &event),
                self.store.records@ == old_records,
                forall|k: int|
                    0 <= k < self.slices.slices@.len() ==> (#[trigger] self.slices.slices@[k]).status
                        != HeaderSliceStatus::Downloaded,
            ensures
                forall|k: int|
                    0 <= k < self.slices.slices@.len() ==> (#[trigger] self.slices.slices@[k]).status
                        != HeaderSliceStatus::Invalid,
            decreases count_status(self.slices.slices@, HeaderSliceStatus::Invalid),
        {
            let ghost before = self.slices.slices@;
            match penalize(&mut self.slices) {
                None => break,
                Some((i, peer)) => {
                    proof {
                        lemma_count_update(before, i as int, self.slices.slices@[i as int], HeaderSliceStatus::Invalid);
                        lemma_credits_update(before, i as int, self.slices.slices@[i as int], orig, &event);
                    }
                    if let Some(p) = peer {
                        proof {
                            assert(before[i as int].from_peer_id is Some);
                        }
                        let ghost pen = penalties@;
                        penalties.push(p);
                        proof {
                            assert forall|m: int| 0 <= m < penalties@.len() implies delivered(orig, &event, #[trigger] penalties@[m]) by {
                                if m < pen.len() {
                                    assert(penalties@[m] == pen[m]);
                                }
                            }
                        }
                    }
                },
            }
        }
        loop
            invariant
                self.wf(),
                self.final_block_id == old(self).final_block_id,
                self.config.hashes@ == old(self).config.hashes@,
                self.slices.final_block_num == old(self).slices.final_block_num,
                self.slices.max_slices == old(self).slices.max_slices,
                self.slices.start_block_num == base,
                base >= old(self).slices.start_block_num,
                self.estimate.estimate == est,
                self.now == now,
                est == estimate_after(old(self).estimate.estimate, &event),
                now == time_after(old(self).now, &event),
                old_records == old(self).store.records@,
                orig == old(self).slices.slices@,
                credits_delivered(self.slices.slices@, orig, &event),
                self.store.records@.len() >= old_records.len(),
                self.store.records@.subrange(0, old_records.len() as int) == old_records,
                forall|k: int|
                    0 <= k < self.slices.slices@.len() ==> {
                        &&& (#[trigger] self.slices.slices@[k]).status != HeaderSliceStatus::Downloaded
                        &&& self.slices.slices@[k].status != HeaderSliceStatus::Invalid
                    },
            ensures
                forall|j: int|
                    #[trigger] is_lowest(self.slices.slices@, j, HeaderSliceStatus::Verified)
                        ==> self.store.records@.len() != self.slices.slices@[j].start_block_num,
            decreases count_status(self.slices.slices@, HeaderSliceStatus::Verified),
        {
            let ghost before = self.slices.slices@;
            let ghost recs = self.store.records@;
            match save_slice(&mut self.slices, &mut self.store) {
                Ok(None) => break,
                Ok(Some(i)) => {
                    proof {
                        lemma_count_update(before, i as int, self.slices.slices@[i as int], HeaderSliceStatus::Verified);
                        lemma_credits_update(before, i as int, self.slices.slices@[i as int], orig, &event);
                        assert(self.store.records@.subrange(0, old_records.len() as int) =~= recs.subrange(0, old_records.len() as int));
                    }
                },
                Err(SaveError::TotalDifficultyOverflow) => {
                    return Err(DownloadError::TotalDifficultyOverflow);
                },
            }
        }
        let ghost recs = self.store.records@;
        loop
            invariant
                self.wf(),
                self.final_block_id == old(self).final_block_id,
                self.config.hashes@ == old(self).config.hashes@,
                self.slices.final_block_num == old(self).slices.final_block_num,
                self.slices.max_slices == old(self).slices.max_slices,
                self.slices.start_block_num == base,
                base >= old(self).slices.start_block_num,
                self.estimate.estimate == est,
                self.now == now,
                est == estimate_after(old(self).estimate.estimate, &event),
                now == time_after(old(self).now, &event),
                old_records == old(self).store.records@,
                orig == old(self).slices.slices@,
                credits_delivered(self.slices.slices@, orig, &event),
                self.store.records@ == recs,
                recs.len() >= old_records.len(),
                recs.subrange(0, old_records.len() as int) == old_records,
                forall|k: int|
                    0 <= k < self.slices.slices@.len() ==> {
                        &&& (#[trigger] self.slices.slices@[k]).status != HeaderSliceStatus::Downloaded
                        &&& self.slices.slices@[k].status != HeaderSliceStatus::Invalid
                    },
                forall|j: int|
                    #[trigger] is_lowest(self.slices.slices@, j, HeaderSliceStatus::Verified)
                        ==> recs.len() != self.slices.slices@[j].start_block_num,
            ensures
                forall|k: int|
                    0 <= k < self.slices.slices@.len() ==> (#[trigger] self.slices.slices@[k]).status
                        != HeaderSliceStatus::Saved,
            decreases count_status(self.slices.slices@, HeaderSliceStatus::Saved),
        {
            let ghost before = self.slices.slices@;
            match refill(&mut self.slices) {
                None => break,
                Some(i) => {
                    proof {
                        lemma_count_update(before, i as int, self.slices.slices@[i as int], HeaderSliceStatus::Saved);
                        lemma_credits_update(before, i as int, self.slices.slices@[i as int], orig, &event);
                        lemma_lowest_update(before, i as int, self.slices.slices@[i as int], HeaderSliceStatus::Verified);
                    }
                },
            }
        }
        let ghost before = self.slices.slices@;
        let dropped = self.slices.slide_window_if_possible();
        proof {
            let after = self.slices.slices@;
            lemma_leading_refilled_prefix(before);
            let d = dropped as int;
            assert forall|k: int| 0 <= k < after.len() implies {
                &&& (#[trigger] after[k]).status != HeaderSliceStatus::Downloaded
                &&& after[k].status != HeaderSliceStatus::Invalid
                &&& after[k].status != HeaderSliceStatus::Saved
            } by {
                if k < before.len() - d {
                    assert(after[k] == before[k + d]);
                } else {
                    assert(after[k].is_fresh(self.slices.slice_start(k)));
                }
            }
            assert forall|k: int| 0 <= k < after.len() && (#[trigger] after[k]).from_peer_id is Some implies delivered(
                orig,
                &event,
                after[k].from_peer_id->0,
            ) by {
                if k < before.len() - d {
                    assert(after[k] == before[k + d]);
                } else {
                    assert(after[k].is_fresh(self.slices.slice_start(k)));
                }
            }
            assert forall|j: int| #[trigger] is_lowest(after, j, HeaderSliceStatus::Verified)
                implies recs.len() != after[j].start_block_num by {
                if j >= before.len() - d {
                    assert(after[j].is_fresh(self.slices.slice_start(j)));
                }
                assert(after[j] == before[j + d]);
                assert forall|k: int| 0 <= k < j + d implies (#[trigger] before[k]).status
                    != HeaderSliceStatus::Verified by {
                    if k >= d {
                        assert(before[k] == after[k - d]);
                    }
                }
                assert(is_lowest(before, j + d, HeaderSliceStatus::Verified));
            }
        }
        let mut requests: Vec<FetchRequest> = Vec::new();
        let ghost mut idx: Seq<int> = Seq::empty();
        loop
            invariant
                self.wf(),
                self.final_block_id == old(self).final_block_id,
                self.config.hashes@ == old(self).config.hashes@,
                self.slices.final_block_num == old(self).slices.final_block_num,
                self.slices.max_slices == old(self).slices.max_slices,
                self.slices.start_block_num >= old(self).slices.start_block_num,
                self.estimate.estimate == est,
                self.now == now,
                est == estimate_after(old(self).estimate.estimate, &event),
                now == time_after(old(self).now, &event),
                old_records == old(self).store.records@,
                orig == old(self).slices.slices@,
                credits_delivered(self.slices.slices@, orig, &event),
                self.store.records@ == recs,
                recs.len() >= old_records.len(),
                recs.subrange(0, old_records.len() as int) == old_records,
                forall|k: int|
                    0 <= k < self.slices.slices@.len() ==> {
                        &&& (#[trigger] self.slices.slices@[k]).status != HeaderSliceStatus::Downloaded
                        &&& self.slices.slices@[k].status != HeaderSliceStatus::Invalid
                        &&& self.slices.slices@[k].status != HeaderSliceStatus::Saved
                    },
                forall|j: int|
                    #[trigger] is_lowest(self.slices.slices@, j, HeaderSliceStatus::Verified)
                        ==> recs.len() != self.slices.slices@[j].start_block_num,
                idx.len() == requests@.len(),
                forall|m: int|
                    0 <= m < requests@.len() ==> {
                        let w = #[trigger] idx[m];
                        &&& 0 <= w < self.slices.slices@.len()
                        &&& self.slices.slices@[w].status == HeaderSliceStatus::Waiting
                        &&& self.slices.slices@[w].request_time == now
                        &&& requests@[m] == request_for(self.slices.slices@[w].start_block_num)
                    },
            ensures
                !(count_status(self.slices.slices@, HeaderSliceStatus::Waiting) < MAX_INFLIGHT
                    && has_status(self.slices.slices@, HeaderSliceStatus::Empty)),
            decreases count_status(self.slices.slices@, HeaderSliceStatus::Empty),
        {
            let ghost before = self.slices.slices@;
            match fetch_request(&mut self.slices, self.now) {
                None => break,
                Some(req) => {
                    let ghost i = choose|i: int|
                        {
                            &&& is_lowest(before, i, HeaderSliceStatus::Empty)
                            &&& Some(req) == Some(request_for(before[i].start_block_num))
                            &&& self.slices.slices@ == before.update(
                                i,
                                HeaderSlice {
                                    status: HeaderSliceStatus::Waiting,
                                    request_time: now,
                                    ..before[i]
                                },
                            )
                        };
                    proof {
                        lemma_count_update(before, i, self.slices.slices@[i], HeaderSliceStatus::Empty);
                        lemma_credits_update(before, i, self.slices.slices@[i], orig, &event);
                        lemma_lowest_update(before, i, self.slices.slices@[i], HeaderSliceStatus::Verified);
                    }
                    let ghost reqs = requests@;
                    requests.push(req);
                    proof {
                        let after = self.slices.slices@;
                        let idx0 = idx;
                        idx = idx.push(i);
                        assert forall|m: int| 0 <= m < requests@.len() implies {
                            let w = #[trigger] idx[m];
                            &&& 0 <= w < after.len()
                            &&& after[w].status == HeaderSliceStatus::Waiting
                            &&& after[w].request_time == now
                            &&& requests@[m] == request_for(after[w].start_block_num)
                        } by {
                            if m < reqs.len() {
                                assert(idx[m] == idx0[m]);
                                assert(requests@[m] == reqs[m]);
                                assert(after[idx0[m]] == before[idx0[m]]);
                            } else {
                                assert(idx[m] == i);
                            }
                        }
                    }
                },
            }
        }
        let finished = self.slices.is_empty_at_final_position();
        let out = StepOutput { requests, penalties, finished };
        proof {
            let sl = self.slices.slices@;
            assert forall|m: int| 0 <= m < out.requests@.len() implies requested(
                sl,
                self.now,
                #[trigger] out.requests@[m],
            ) by {
                let w = idx[m];
                assert(sl[w].status == HeaderSliceStatus::Waiting);
                assert(out.requests@[m] == request_for(sl[w].start_block_num));
            }
        }
        Ok(out)
    }
}

impl DownloaderPreverified {
    pub fn new(chain_name: String, mem_limit: usize) -> (r: Self)
        ensures
            r.chain_name@ == chain_name@,
            r.mem_limit == mem_limit,
    {
        DownloaderPreverified { chain_name, mem_limit }
    }

    /// Sets a run up over the chain that `config` anchors: a window from
    /// block zero to the last anchor, sized to the memory limit.
    pub fn start(&self, config: PreverifiedHashesConfig) -> (r: Result<HeaderPipeline, DownloadError>)
        ensures
            config.hashes@.len() == 0 ==> r == Err::<HeaderPipeline, DownloadError>(
                DownloadError::NoPreverifiedHashes,
            ),
            config.hashes@.len() >= 1 && (config.hashes@.len() - 1) * HEADER_SLICE_SIZE
                > MAX_FINAL_BLOCK_NUM ==> r == Err::<HeaderPipeline, DownloadError>(
                DownloadError::TooManyPreverifiedHashes,
            ),
            r is Ok <==> config.hashes@.len() >= 1 && (config.hashes@.len() - 1) * HEADER_SLICE_SIZE
                <= MAX_FINAL_BLOCK_NUM,
            r matches Ok(p) ==> {
                &&& p.wf()
                &&& p.config.hashes@ == config.hashes@
                &&& p.final_block_id == BlockHashAndNumber {
                    number: ((config.hashes@.len() - 1) * HEADER_SLICE_SIZE) as u64,
                    hash: config.hashes@.last(),
                }
                &&& p.slices.start_block_num == 0
                &&& p.slices.max_slices == self.mem_limit / crate::header_slices::HEADER_SLICE_MEM_SIZE
                &&& p.store.records@.len() == 0
                &&& p.estimate.estimate is None
                &&& p.now == 0
                &&& forall|i: int|
                    0 <= i < p.slices.slices@.len() ==> (#[trigger] p.slices.slices@[i]).is_fresh(
                        p.slices.slice_start(i),
                    )
            },
    {
        if config.hashes.len() == 0 {
            return Err(DownloadError::NoPreverifiedHashes);
        }
        let final_block_num = match config.final_block_num() {
            Some(n) => n,
            None => {
                return Err(DownloadError::TooManyPreverifiedHashes);
            },
        };
        let final_block_hash = config.hashes[config.hashes.len() - 1];
        let slices = HeaderSlices::new(self.mem_limit, 0, final_block_num);
        Ok(
            HeaderPipeline {
                slices,
                config,
                store: HeaderStore::new(),
                estimate: TopBlockEstimate::new(),
                final_block_id: BlockHashAndNumber { number: final_block_num, hash: final_block_hash },
                now: 0,
            },
        )
    }
}

} // verus!

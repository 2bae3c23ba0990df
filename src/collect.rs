use vstd::prelude::*;
use vstd::set_lib::*;
use crate::partition::Range;

verus! {

/// How one segment's external invocation ended.
#[derive(Clone, Copy, Debug, PartialEq, Eq, Structural)]
pub enum Status {
    /// The tool ran and exited successfully.
    Succeeded,
    /// The tool ran and reported failure (a soft failure).
    NonZeroExit,
    /// The tool could not be started at all.
    LaunchFailure,
}

/// Status of an invocation from whether the tool started and, if so,
/// whether it exited successfully.
pub fn status_of(launched: bool, exit_success: bool) -> (r: Status)
    ensures
        !launched ==> r == Status::LaunchFailure,
        launched && exit_success ==> r == Status::Succeeded,
        launched && !exit_success ==> r == Status::NonZeroExit,
{
    if !launched {
        Status::LaunchFailure
    } else if exit_success {
        Status::Succeeded
    } else {
        Status::NonZeroExit
    }
}

/// What a worker sends back for its segment. Times are in microseconds;
/// `started_us` is measured from the start of the job on the same monotonic
/// clock the coordinator uses.
#[derive(Clone, Copy, Debug, PartialEq, Eq, Structural)]
pub struct SegmentReport {
    /// Position of the segment in the partition.
    pub index: usize,
    pub segment: Range,
    pub started_us: u64,
    pub elapsed_us: u64,
    pub status: Status,
}

impl SegmentReport {
    /// The instant, from the start of the job, at which the invocation ended.
    pub open spec fn finished_at(self) -> int {
        self.started_us + self.elapsed_us
    }
}

/// Why a report could not be accepted or the job could not be closed.
#[derive(Clone, Copy, Debug, PartialEq, Eq, Structural)]
pub enum CollectError {
    /// The report names a segment index the job does not have.
    UnknownSegment,
    /// A report for that segment was already received.
    Duplicate,
    /// Some segment has not reported yet.
    Incomplete,
}

/// Results of a whole job, in segment order, and its total duration.
#[derive(Debug)]
pub struct JobReport {
    pub results: Vec<SegmentReport>,
    pub total_us: u128,
}

/// The slots after one report arrives: it fills the slot of its segment when
/// that slot exists and is still empty, and changes nothing otherwise.
pub open spec fn record_step(slots: Seq<Option<SegmentReport>>, r: SegmentReport) -> Seq<
    Option<SegmentReport>,
> {
    if r.index < slots.len() && slots[r.index as int] is None {
        slots.update(r.index as int, Some(r))
    } else {
        slots
    }
}

/// The slots after the reports `arrivals` arrive in that order.
pub open spec fn after_arrivals(
    slots: Seq<Option<SegmentReport>>,
    arrivals: Seq<SegmentReport>,
) -> Seq<Option<SegmentReport>>
    decreases arrivals.len(),
{
    if arrivals.len() == 0 {
        slots
    } else {
        after_arrivals(record_step(slots, arrivals[0]), arrivals.drop_first())
    }
}

/// Number of segments that have not reported.
pub open spec fn missing(slots: Seq<Option<SegmentReport>>) -> nat
    decreases slots.len(),
{
    if slots.len() == 0 {
        0
    } else {
        missing(slots.drop_last()) + if slots.last() is None {
            1nat
        } else {
            0nat
        }
    }
}

/// The reports of `arrivals` name distinct segments.
pub open spec fn distinct_segments(arrivals: Seq<SegmentReport>) -> bool {
    forall|i: int, j: int|
        0 <= i < j < arrivals.len() ==> #[trigger] arrivals[i].index != #[trigger] arrivals[j].index
}

/// Gathers the reports of a job's workers, whatever order they arrive in,
/// into one slot per segment.
pub struct Collector {
    slots: Vec<Option<SegmentReport>>,
    span_us: u128,
}

impl Collector {
    /// The slot of each segment: its report once received.
    pub closed spec fn slots(&self) -> Seq<Option<SegmentReport>> {
        self.slots@
    }

    /// Time from the start of the job to the latest instant seen so far: a
    /// report's arrival or the end of its invocation.
    pub closed spec fn span(&self) -> int {
        self.span_us as int
    }

    /// Each filled slot holds the report of its own segment, which ended
    /// within the span.
    pub closed spec fn wf(&self) -> bool {
        forall|i: int|
            0 <= i < self.slots@.len() && #[trigger] self.slots@[i] is Some ==> {
                &&& self.slots@[i]->0.index == i
                &&& self.slots@[i]->0.finished_at() <= self.span_us
            }
    }

    /// A collector awaiting `workers` reports.
    pub fn new(workers: usize) -> (c: Collector)
        ensures
            c.wf(),
            c.slots() == Seq::new(workers as nat, |i: int| None::<SegmentReport>),
            c.span() == 0,
    {
        let mut slots: Vec<Option<SegmentReport>> = Vec::new();
        let mut i: usize = 0;
        while i < workers
            invariant
                0 <= i <= workers,
                slots@ == Seq::new(i as nat, |k: int| None::<SegmentReport>),
            decreases workers - i,
        {
            slots.push(None);
            i = i + 1;
            proof {
                assert(slots@ =~= Seq::new(i as nat, |k: int| None::<SegmentReport>));
            }
        }
        Collector { slots, span_us: 0 }
    }

    /// Number of segments of the job.
    pub fn segment_count(&self) -> (r: usize)
        ensures
            r == self.slots().len(),
    {
        self.slots.len()
    }

    /// Accepts the report of one segment, received `received_us` after the
    /// start of the job. A report for an unknown or already reported segment
    /// is refused and changes nothing.
    pub fn record(&mut self, report: SegmentReport, received_us: u64) -> (r: Result<(), CollectError>)
        requires
            old(self).wf(),
        ensures
            final(self).wf(),
            final(self).slots() == record_step(old(self).slots(), report),
            r == Err::<(), CollectError>(CollectError::UnknownSegment) <==> report.index >= old(
                self,
            ).slots().len(),
            r == Err::<(), CollectError>(CollectError::Duplicate) <==> (report.index < old(
                self,
            ).slots().len() && old(self).slots()[report.index as int] is Some),
            r is Ok <==> (report.index < old(self).slots().len() && old(self).slots()[report.index as int] is None),
            r is Ok ==> final(self).span() == vstd::math::max(
                vstd::math::max(old(self).span(), received_us as int),
                report.finished_at(),
            ),
            r is Err ==> final(self).span() == old(self).span(),
    {
        if report.index >= self.slots.len() {
            return Err(CollectError::UnknownSegment);
        }
        if self.slots[report.index].is_some() {
            return Err(CollectError::Duplicate);
        }
        let finished: u128 = report.started_us as u128 + report.elapsed_us as u128;
        let mut span: u128 = self.span_us;
        if (received_us as u128) > span {
            span = received_us as u128;
        }
        if finished > span {
            span = finished;
        }
        let ghost before = self.slots@;
        self.slots.set(report.index, Some(report));
        self.span_us = span;
        proof {
            assert forall|i: int|
                0 <= i < self.slots@.len() && #[trigger] self.slots@[i] is Some implies {
                &&& self.slots@[i]->0.index == i
                &&& self.slots@[i]->0.finished_at() <= self.span_us
            } by {
                if i != report.index {
                    assert(before[i] is Some);
                }
            }
        }
        Ok(())
    }

    /// Number of segments that have not reported yet.
    pub fn remaining(&self) -> (r: usize)
        ensures
            r == missing(self.slots()),
    {
        let mut count: usize = 0;
        let mut i: usize = 0;
        while i < self.slots.len()
            invariant
                0 <= i <= self.slots@.len(),
                count == missing(self.slots@.take(i as int)),
                count <= i,
            decreases self.slots@.len() - i,
        {
            proof {
                assert(self.slots@.take(i + 1).drop_last() =~= self.slots@.take(i as int));
            }
            if self.slots[i].is_none() {
                count = count + 1;
            }
            i = i + 1;
        }
        proof {
            assert(self.slots@.take(i as int) =~= self.slots@);
        }
        count
    }

    /// Closes the job once every segment has reported: the reports in segment
    /// order, and the span of the job as its total duration.
    pub fn finish(&self) -> (r: Result<JobReport, CollectError>)
        requires
            self.wf(),
        ensures
            r is Ok <==> forall|i: int| 0 <= i < self.slots().len() ==> #[trigger] self.slots()[i] is Some,
            r is Err ==> r == Err::<JobReport, CollectError>(CollectError::Incomplete),
            r matches Ok(job) ==> {
                &&& job.results@.len() == self.slots().len()
                &&& forall|i: int| 0 <= i < job.results@.len() ==> Some(#[trigger] job.results@[i]) == self.slots()[i]
                &&& forall|i: int| 0 <= i < job.results@.len() ==> (#[trigger] job.results@[i]).index == i
                &&& forall|i: int| 0 <= i < job.results@.len() ==> (#[trigger] job.results@[i]).elapsed_us <= job.total_us
                &&& job.total_us == self.span()
            },
    {
        let mut results: Vec<SegmentReport> = Vec::new();
        let mut i: usize = 0;
        while i < self.slots.len()
            invariant
                self.wf(),
                0 <= i <= self.slots@.len(),
                results@.len() == i,
                forall|k: int| 0 <= k < i ==> Some(#[trigger] results@[k]) == self.slots@[k],
            decreases self.slots@.len() - i,
        {
            match self.slots[i] {
                Some(report) => {
                    results.push(report);
                },
                None => {
                    return Err(CollectError::Incomplete);
                },
            }
            i = i + 1;
        }
        proof {
            assert forall|k: int| 0 <= k < results@.len() implies (#[trigger] results@[k]).index == k
                && results@[k].elapsed_us <= self.span_us by {
                assert(self.slots@[k] is Some);
            }
            assert forall|k: int| 0 <= k < self.slots@.len() implies #[trigger] self.slots@[k] is Some by {
                assert(Some(results@[k]) == self.slots@[k]);
            }
        }
        Ok(JobReport { results, total_us: self.span_us })
    }
}


proof fn lemma_fill(slots: Seq<Option<SegmentReport>>, arrivals: Seq<SegmentReport>)
    requires
        distinct_segments(arrivals),
        forall|j: int|
            0 <= j < arrivals.len() ==> #[trigger] arrivals[j].index < slots.len() && slots[arrivals[j].index as int] is None,
    ensures
        after_arrivals(slots, arrivals).len() == slots.len(),
        forall|j: int|
            0 <= j < arrivals.len() ==> after_arrivals(slots, arrivals)[#[trigger] arrivals[j].index as int]
                == Some(arrivals[j]),
        forall|i: int|
            0 <= i < slots.len() && (forall|j: int| 0 <= j < arrivals.len() ==> #[trigger] arrivals[j].index != i)
                ==> after_arrivals(slots, arrivals)[i] == slots[i],
    decreases arrivals.len(),
{
    if arrivals.len() > 0 {
        let first = arrivals[0];
        let rest = arrivals.drop_first();
        let next = record_step(slots, first);
        assert(next == slots.update(first.index as int, Some(first)));
        assert forall|j: int| 0 <= j < rest.len() implies #[trigger] rest[j].index < next.len()
            && next[rest[j].index as int] is None by {
            assert(rest[j] == arrivals[j + 1]);
        }
        assert(distinct_segments(rest)) by {
            assert forall|i: int, j: int| 0 <= i < j < rest.len() implies #[trigger] rest[i].index
                != #[trigger] rest[j].index by {
                assert(rest[i] == arrivals[i + 1] && rest[j] == arrivals[j + 1]);
            }
        }
        lemma_fill(next, rest);
        let done = after_arrivals(slots, arrivals);
        assert(done == after_arrivals(next, rest));
        assert forall|j: int| 0 <= j < rest.len() implies #[trigger] rest[j].index != first.index by {
            assert(rest[j] == arrivals[j + 1]);
        }
        assert forall|j: int| 0 <= j < arrivals.len() implies done[#[trigger] arrivals[j].index as int]
            == Some(arrivals[j]) by {
            if j > 0 {
                assert(arrivals[j] == rest[j - 1]);
            } else {
                assert(after_arrivals(next, rest)[first.index as int] == next[first.index as int]);
            }
        }
        assert forall|i: int|
            0 <= i < slots.len() && (forall|j: int| 0 <= j < arrivals.len() ==> #[trigger] arrivals[j].index != i)
            implies done[i] == slots[i] by {
            assert forall|j: int| 0 <= j < rest.len() implies #[trigger] rest[j].index != i by {
                assert(rest[j] == arrivals[j + 1]);
            }
            assert(arrivals[0].index != i);
            assert(after_arrivals(next, rest)[i] == next[i]);
        }
    }
}

/// Whatever order the reports of a job's `workers` segments arrive in, each
/// naming a distinct segment of the job, once all `workers` of them are in
/// every slot is filled, slot `i` holding the report of segment `i`, so the
/// finished job lists them in segment order; and no further report is
/// accepted.
pub proof fn lemma_arrival_order(workers: usize, arrivals: Seq<SegmentReport>)
    requires
        arrivals.len() == workers,
        forall|j: int| 0 <= j < arrivals.len() ==> #[trigger] arrivals[j].index < workers,
        distinct_segments(arrivals),
    ensures
        ({
            let slots = after_arrivals(Seq::new(workers as nat, |i: int| None::<SegmentReport>), arrivals);
            &&& slots.len() == workers
            &&& forall|i: int| 0 <= i < workers ==> #[trigger] slots[i] is Some && slots[i]->0.index == i
            &&& forall|j: int| 0 <= j < workers ==> slots[#[trigger] arrivals[j].index as int] == Some(arrivals[j])
            &&& forall|r: SegmentReport| #[trigger] record_step(slots, r) == slots
        }),
{
    let empty = Seq::new(workers as nat, |i: int| None::<SegmentReport>);
    lemma_fill(empty, arrivals);
    let slots = after_arrivals(empty, arrivals);
    let ids = arrivals.map_values(|r: SegmentReport| r.index as int);
    assert(ids.no_duplicates()) by {
        assert forall|i: int, j: int| 0 <= i < ids.len() && 0 <= j < ids.len() && i != j implies ids[i] != ids[j] by {
            if i < j {
                assert(arrivals[i].index != arrivals[j].index);
            } else {
                assert(arrivals[j].index != arrivals[i].index);
            }
        }
    }
    ids.unique_seq_to_set();
    let range = set_int_range(0, workers as int);
    lemma_int_range(0, workers as int);
    assert(ids.to_set().subset_of(range)) by {
        assert forall|x: int| ids.to_set().contains(x) implies range.contains(x) by {
            let j = choose|j: int| 0 <= j < ids.len() && ids[j] == x;
            assert(arrivals[j].index < workers);
        }
    }
    lemma_len_subset(ids.to_set(), range);
    lemma_subset_equality(ids.to_set(), range);
    assert forall|i: int| 0 <= i < workers implies #[trigger] slots[i] is Some && slots[i]->0.index == i by {
        assert(range.contains(i));
        assert(ids.to_set().contains(i));
        let j = choose|j: int| 0 <= j < ids.len() && ids[j] == i;
        assert(slots[arrivals[j].index as int] == Some(arrivals[j]));
    }
}

} // verus!

use vstd::prelude::*;

verus! {

/// An inclusive interval of item indices, `start..=end`.
#[derive(Clone, Copy, Debug, PartialEq, Eq, Structural)]
pub struct Range {
    pub start: usize,
    pub end: usize,
}

impl Range {
    /// A range is well formed when it is not inverted.
    pub open spec fn wf(self) -> bool {
        self.start <= self.end
    }

    /// Number of indices the range holds (meaningful when well formed).
    pub open spec fn len_spec(self) -> int {
        self.end - self.start + 1
    }

    pub fn new(start: usize, end: usize) -> (r: Range)
        ensures
            r.start == start,
            r.end == end,
    {
        Range { start, end }
    }
}

/// Why a range could not be partitioned.
#[derive(Clone, Copy, Debug, PartialEq, Eq, Structural)]
pub enum PartitionError {
    /// The job range is inverted (`start > end`) or, for a count, empty.
    InvalidRange,
    /// The worker count is zero or larger than the number of indices.
    InvalidWorkerCount,
}

/// Length of every segment but the last: `floor(length / workers)`.
pub open spec fn base_len(job: Range, workers: nat) -> int {
    job.len_spec() / (workers as int)
}

/// Segment `i` of `job` split among `workers`: it starts at
/// `job.start + i * base_len`, ends one before the next segment starts, and the
/// last one ends at `job.end`, taking the remainder of the division.
pub open spec fn segment_at(job: Range, workers: nat, i: int) -> Range {
    let q = base_len(job, workers);
    let s = job.start + i * q;
    Range {
        start: s as usize,
        end: if i == workers - 1 { job.end } else { (s + q - 1) as usize },
    }
}

/// The whole ordered list of segments of `job` among `workers`.
pub open spec fn segments_of(job: Range, workers: nat) -> Seq<Range> {
    Seq::new(workers, |i: int| segment_at(job, workers, i))
}

/// When partitioning succeeds.
pub open spec fn partition_ok(job: Range, workers: nat) -> bool {
    job.wf() && 1 <= workers <= job.len_spec()
}

/// The range `0..=total-1` of a collection of `total` items.
pub open spec fn whole(total: nat) -> Range {
    Range { start: 0, end: (total - 1) as usize }
}

proof fn lemma_offsets(len: int, workers: int, i: int)
    requires
        1 <= workers <= len,
        0 <= i < workers,
    ensures
        len / workers >= 1,
        0 <= i * (len / workers),
        i * (len / workers) + len / workers <= len,
        (i + 1) * (len / workers) == i * (len / workers) + len / workers,
        i < workers - 1 ==> i * (len / workers) + len / workers <= len - len / workers,
{
    let q = len / workers;
    assert(q >= 1) by (nonlinear_arith)
        requires
            1 <= workers <= len,
            q == len / workers,
    ;
    assert(workers * q <= len) by (nonlinear_arith)
        requires
            1 <= workers,
            q == len / workers,
    ;
    assert(0 <= i * q && i * q + q <= workers * q) by (nonlinear_arith)
        requires
            0 <= i < workers,
            q >= 1,
    ;
    assert((i + 1) * q == i * q + q) by (nonlinear_arith);
    if i < workers - 1 {
        assert(i * q + q + q <= workers * q) by (nonlinear_arith)
            requires
                0 <= i < workers - 1,
                q >= 1,
        ;
    }
}

/// Splits `job` into `workers` contiguous segments.
///
/// Segment `i` starts at `job.start + i * floor(length / workers)`; each ends
/// one before its successor starts, and the last ends at `job.end`, absorbing
/// the remainder. An inverted range, no workers, or more workers than indices
/// are rejected instead of yielding empty or inverted segments.
pub fn partition_range(job: Range, workers: usize) -> (r: Result<Vec<Range>, PartitionError>)
    ensures
        r == Err::<Vec<Range>, PartitionError>(PartitionError::InvalidRange) <==> !job.wf(),
        r == Err::<Vec<Range>, PartitionError>(PartitionError::InvalidWorkerCount) <==> (job.wf()
            && !partition_ok(job, workers as nat)),
        r is Ok <==> partition_ok(job, workers as nat),
        r matches Ok(v) ==> v@ == segments_of(job, workers as nat),
{
    if job.start > job.end {
        return Err(PartitionError::InvalidRange);
    }
    let span: usize = job.end - job.start;
    if workers == 0 || workers - 1 > span {
        return Err(PartitionError::InvalidWorkerCount);
    }
    let length: u128 = span as u128 + 1;
    // With a single worker the base length is never used, and may not fit.
    let q: usize = if workers == 1 {
        0
    } else {
        proof {
            assert(length / (workers as u128) <= length / 2) by (nonlinear_arith)
                requires
                    workers >= 2,
                    length >= 2,
            ;
        }
        (length / (workers as u128)) as usize
    };
    let mut segments: Vec<Range> = Vec::new();
    let mut i: usize = 0;
    while i < workers
        invariant
            partition_ok(job, workers as nat),
            workers >= 2 ==> q as int == base_len(job, workers as nat),
            workers == 1 ==> q == 0,
            0 <= i <= workers,
            segments@.len() == i,
            forall|k: int| 0 <= k < i ==> segments@[k] == segment_at(job, workers as nat, k),
        decreases workers - i,
    {
        proof {
            lemma_offsets(job.len_spec(), workers as int, i as int);
            if workers == 1 {
                assert(i * base_len(job, workers as nat) == 0);
            }
        }
        let offset: usize = i * q;
        let s: usize = job.start + offset;
        let e: usize = if i == workers - 1 {
            job.end
        } else {
            s + q - 1
        };
        segments.push(Range { start: s, end: e });
        i = i + 1;
    }
    proof {
        assert(segments@ =~= segments_of(job, workers as nat));
    }
    Ok(segments)
}

/// Splits the indices `0..=total-1` of a collection of `total` items among
/// `workers`. An empty collection is an invalid range.
pub fn partition(total: usize, workers: usize) -> (r: Result<Vec<Range>, PartitionError>)
    ensures
        r == Err::<Vec<Range>, PartitionError>(PartitionError::InvalidRange) <==> total == 0,
        r == Err::<Vec<Range>, PartitionError>(PartitionError::InvalidWorkerCount) <==> (total
            >= 1 && (workers == 0 || workers > total)),
        r is Ok <==> (total >= 1 && 1 <= workers <= total),
        r matches Ok(v) ==> v@ == segments_of(whole(total as nat), workers as nat),
{
    if total == 0 {
        return Err(PartitionError::InvalidRange);
    }
    partition_range(Range { start: 0, end: total - 1 }, workers)
}


/// Index `k` lies in one of the segments `segs`.
pub open spec fn in_some_segment(segs: Seq<Range>, k: int) -> bool {
    exists|i: int| 0 <= i < segs.len() && segs[i].start <= k <= #[trigger] segs[i].end
}

proof fn lemma_segment(job: Range, workers: nat, i: int)
    requires
        partition_ok(job, workers),
        0 <= i < workers,
    ensures
        segment_at(job, workers, i).start == job.start + i * base_len(job, workers),
        i < workers - 1 ==> segment_at(job, workers, i).end == job.start + i * base_len(
            job,
            workers,
        ) + base_len(job, workers) - 1,
        segment_at(job, workers, i).start <= segment_at(job, workers, i).end,
        job.start <= segment_at(job, workers, i).start,
        segment_at(job, workers, i).end <= job.end,
{
    lemma_offsets(job.len_spec(), workers as int, i);
}

/// Laws of the segments of `0..=total-1` among `workers`, for
/// `1 <= workers <= total`: there are `workers` of them, none is empty, each
/// ends right before the next one starts (so they are sorted and pairwise
/// disjoint), the first starts at `0`, the last ends at `total - 1`, every
/// index lies in some segment, and the last segment is longer than each other
/// one by the remainder of the division, at most `workers - 1`.
pub proof fn lemma_partition_covers(total: usize, workers: usize)
    requires
        1 <= workers <= total,
    ensures
        ({
            let segs = segments_of(whole(total as nat), workers as nat);
            &&& segs.len() == workers
            &&& segs[0].start == 0
            &&& segs[workers - 1].end == total - 1
            &&& forall|i: int| 0 <= i < workers ==> #[trigger] segs[i].start <= segs[i].end
            &&& forall|i: int|
                0 <= i < workers - 1 ==> #[trigger] segs[i].end + 1 == segs[i + 1].start
            &&& forall|i: int, j: int|
                0 <= i < j < workers ==> #[trigger] segs[i].end < #[trigger] segs[j].start
            &&& forall|k: int| 0 <= k < total ==> #[trigger] in_some_segment(segs, k)
            &&& forall|i: int|
                0 <= i < workers - 1 ==> #[trigger] segs[i].len_spec() <= segs[workers
                    - 1].len_spec() <= segs[i].len_spec() + workers - 1
        }),
{
    let job = whole(total as nat);
    let w = workers as nat;
    let segs = segments_of(job, w);
    let len = total as int;
    let q = base_len(job, w);
    assert(job.len_spec() == len);
    lemma_segment(job, w, 0);
    lemma_segment(job, w, w - 1);
    let rem = len % (w as int);
    assert(len == (w as int) * q + rem && 0 <= rem < w) by (nonlinear_arith)
        requires
            w >= 1,
            q == len / (w as int),
            rem == len % (w as int),
    ;
    assert(((w - 1) as int) * q == (w as int) * q - q) by (nonlinear_arith);
    assert(segs[w - 1].len_spec() == q + rem);
    assert forall|i: int| 0 <= i < workers implies #[trigger] segs[i].start <= segs[i].end by {
        lemma_segment(job, w, i);
    }
    assert forall|i: int| 0 <= i < workers - 1 implies #[trigger] segs[i].end + 1 == segs[i
        + 1].start by {
        lemma_segment(job, w, i);
        lemma_segment(job, w, i + 1);
        assert((i + 1) * q == i * q + q) by (nonlinear_arith);
    }
    assert forall|i: int, j: int| 0 <= i < j < workers implies #[trigger] segs[i].end
        < #[trigger] segs[j].start by {
        lemma_segment(job, w, i);
        lemma_segment(job, w, j);
        assert(i * q + q <= j * q) by (nonlinear_arith)
            requires
                i < j,
                q >= 1,
        ;
    }
    assert forall|k: int| 0 <= k < total implies #[trigger] in_some_segment(segs, k) by {
        let d = k / q;
        let i = if d < w - 1 {
            d
        } else {
            (w - 1) as int
        };
        lemma_segment(job, w, i);
        assert(0 <= d && d * q <= k < d * q + q) by (nonlinear_arith)
            requires
                q >= 1,
                0 <= k,
                d == k / q,
        ;
        assert(i * q <= k) by (nonlinear_arith)
            requires
                0 <= i <= d,
                d * q <= k,
                q >= 1,
        ;
        assert(segs[i].start <= k <= segs[i].end);
    }
    assert forall|i: int| 0 <= i < workers - 1 implies #[trigger] segs[i].len_spec() <= segs[workers
        - 1].len_spec() <= segs[i].len_spec() + workers - 1 by {
        lemma_segment(job, w, i);
    }
}

/// A single worker gets one segment: the whole range `0..=total-1`.
pub proof fn lemma_single_worker(total: usize)
    requires
        total >= 1,
    ensures
        segments_of(whole(total as nat), 1) =~= seq![whole(total as nat)],
{
    assert(0 * base_len(whole(total as nat), 1) == 0);
}

} // verus!

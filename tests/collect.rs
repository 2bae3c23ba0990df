use playlist_fetch::collect::{status_of, CollectError, Collector, SegmentReport, Status};
use playlist_fetch::partition::{partition, Range};

fn report(index: usize, segment: Range, started_us: u64, elapsed_us: u64) -> SegmentReport {
    SegmentReport { index, segment, started_us, elapsed_us, status: Status::Succeeded }
}

#[test]
fn reports_come_out_in_segment_order_whatever_the_arrival_order() {
    let segs = partition(12, 4).unwrap();
    let mut c = Collector::new(segs.len());
    // Segment k takes time inversely proportional to k + 1, so the last
    // segment finishes first.
    let mut clock: u64 = 0;
    for k in (0..segs.len()).rev() {
        let elapsed = 1200 / (k as u64 + 1);
        clock += 1;
        assert_eq!(c.remaining(), k + 1);
        c.record(report(k, segs[k], 0, elapsed), elapsed + clock).unwrap();
    }
    assert_eq!(c.remaining(), 0);
    let job = c.finish().unwrap();
    assert_eq!(job.results.len(), 4);
    for (i, r) in job.results.iter().enumerate() {
        assert_eq!(r.index, i);
        assert_eq!(r.segment, segs[i]);
        assert!(r.elapsed_us <= job.total_us as u64);
    }
    assert_eq!(job.total_us, 1204);
}

#[test]
fn unfinished_job_cannot_be_closed() {
    let mut c = Collector::new(2);
    c.record(report(1, Range::new(1, 1), 0, 5), 6).unwrap();
    assert_eq!(c.remaining(), 1);
    assert_eq!(c.finish().unwrap_err(), CollectError::Incomplete);
}

#[test]
fn extra_reports_are_refused() {
    let mut c = Collector::new(1);
    c.record(report(0, Range::new(0, 3), 0, 5), 6).unwrap();
    assert_eq!(c.record(report(0, Range::new(0, 3), 0, 5), 7), Err(CollectError::Duplicate));
    assert_eq!(c.record(report(1, Range::new(0, 3), 0, 5), 7), Err(CollectError::UnknownSegment));
    assert_eq!(c.finish().unwrap().results.len(), 1);
}

#[test]
fn total_covers_longest_segment() {
    let mut c = Collector::new(2);
    c.record(report(0, Range::new(0, 0), 10, 500), 400).unwrap();
    c.record(report(1, Range::new(1, 1), 20, 30), 450).unwrap();
    let job = c.finish().unwrap();
    assert_eq!(job.total_us, 510);
    assert_eq!(c.segment_count(), 2);
}

#[test]
fn empty_job_finishes_at_once() {
    let c = Collector::new(0);
    let job = c.finish().unwrap();
    assert!(job.results.is_empty());
    assert_eq!(job.total_us, 0);
}

#[test]
fn statuses_distinguish_launch_failure() {
    assert_eq!(status_of(false, false), Status::LaunchFailure);
    assert_eq!(status_of(false, true), Status::LaunchFailure);
    assert_eq!(status_of(true, true), Status::Succeeded);
    assert_eq!(status_of(true, false), Status::NonZeroExit);
}

#[test]
fn failed_segment_is_still_recorded() {
    let mut c = Collector::new(1);
    let mut r = report(0, Range::new(0, 2), 0, 9);
    r.status = Status::NonZeroExit;
    c.record(r, 10).unwrap();
    assert_eq!(c.finish().unwrap().results[0].status, Status::NonZeroExit);
}

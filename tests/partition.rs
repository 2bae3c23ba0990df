use playlist_fetch::partition::{partition, partition_range, PartitionError, Range};

fn r(start: usize, end: usize) -> Range {
    Range::new(start, end)
}

#[test]
fn ten_items_three_workers_follow_the_floor_formula() {
    let segs = partition(10, 3).unwrap();
    assert_eq!(segs, vec![r(0, 2), r(3, 5), r(6, 9)]);
}

#[test]
fn single_worker_gets_whole_range() {
    for total in [1usize, 2, 7, 100] {
        assert_eq!(partition(total, 1).unwrap(), vec![r(0, total - 1)]);
    }
}

#[test]
fn more_workers_than_items_is_rejected() {
    assert_eq!(partition(3, 4), Err(PartitionError::InvalidWorkerCount));
    assert_eq!(partition(1, 2), Err(PartitionError::InvalidWorkerCount));
}

#[test]
fn zero_workers_is_rejected() {
    assert_eq!(partition(5, 0), Err(PartitionError::InvalidWorkerCount));
}

#[test]
fn empty_collection_is_rejected() {
    assert_eq!(partition(0, 1), Err(PartitionError::InvalidRange));
}

#[test]
fn inverted_range_is_rejected() {
    assert_eq!(partition_range(r(5, 4), 1), Err(PartitionError::InvalidRange));
}

#[test]
fn workers_equal_to_items_give_unit_segments() {
    assert_eq!(partition(4, 4).unwrap(), vec![r(0, 0), r(1, 1), r(2, 2), r(3, 3)]);
}

#[test]
fn sub_range_is_offset_by_its_start() {
    assert_eq!(
        partition_range(r(5, 14), 4).unwrap(),
        vec![r(5, 6), r(7, 8), r(9, 10), r(11, 14)]
    );
}

#[test]
fn full_index_space_with_one_worker() {
    assert_eq!(partition_range(r(0, usize::MAX), 1).unwrap(), vec![r(0, usize::MAX)]);
}

#[test]
fn full_index_space_with_two_workers() {
    let half = usize::MAX / 2 + 1;
    assert_eq!(
        partition_range(r(0, usize::MAX), 2).unwrap(),
        vec![r(0, half - 1), r(half, usize::MAX)]
    );
}

#[test]
fn segments_are_contiguous_and_cover_for_many_inputs() {
    for total in 1usize..40 {
        for workers in 1..=total {
            let segs = partition(total, workers).unwrap();
            assert_eq!(segs.len(), workers);
            assert_eq!(segs[0].start, 0);
            assert_eq!(segs[workers - 1].end, total - 1);
            let last_len = segs[workers - 1].end - segs[workers - 1].start + 1;
            for i in 0..workers {
                assert!(segs[i].start <= segs[i].end);
                if i + 1 < workers {
                    assert_eq!(segs[i].end + 1, segs[i + 1].start);
                    let len = segs[i].end - segs[i].start + 1;
                    assert!(len <= last_len && last_len <= len + workers - 1);
                }
            }
        }
    }
}

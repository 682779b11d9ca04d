use nbody_ring::partition::get_slice;

#[test]
fn ten_items_dealt_to_three() {
    assert_eq!(get_slice(3, 0, 10), 0..4);
    assert_eq!(get_slice(3, 1, 10), 4..7);
    assert_eq!(get_slice(3, 2, 10), 7..10);
}

#[test]
fn nine_items_dealt_evenly_to_three() {
    assert_eq!(get_slice(3, 0, 9), 0..3);
    assert_eq!(get_slice(3, 1, 9), 3..6);
    assert_eq!(get_slice(3, 2, 9), 6..9);
}

#[test]
fn one_process_gets_everything() {
    assert_eq!(get_slice(1, 0, 0), 0..0);
    assert_eq!(get_slice(1, 0, 1), 0..1);
    assert_eq!(get_slice(1, 0, 12345), 0..12345);
}

#[test]
fn nothing_to_deal_gives_empty_blocks() {
    for rank in 0..4 {
        assert_eq!(get_slice(4, rank, 0), 0..0);
    }
}

#[test]
fn fewer_items_than_processes() {
    assert_eq!(get_slice(5, 0, 2), 0..1);
    assert_eq!(get_slice(5, 1, 2), 1..2);
    assert_eq!(get_slice(5, 2, 2), 2..2);
    assert_eq!(get_slice(5, 3, 2), 2..2);
    assert_eq!(get_slice(5, 4, 2), 2..2);
}

#[test]
fn blocks_are_ordered_disjoint_and_cover() {
    for size in 1..=12 {
        for len in 0..=40usize {
            let mut expected_start = 0usize;
            for rank in 0..size {
                let block = get_slice(size, rank, len);
                assert_eq!(block.start, expected_start);
                assert!(block.start <= block.end);
                expected_start = block.end;
            }
            assert_eq!(expected_start, len);
        }
    }
}

#[test]
fn block_lengths_differ_by_at_most_one() {
    for size in 1..=12 {
        for len in 0..=40usize {
            let q = len / size as usize;
            let r = len % size as usize;
            for rank in 0..size {
                let block = get_slice(size, rank, len);
                let want = if (rank as usize) < r { q + 1 } else { q };
                assert_eq!(block.end - block.start, want);
            }
        }
    }
}

#[test]
fn every_index_has_one_owner() {
    let size = 7;
    let len = 30usize;
    for i in 0..len {
        let owners = (0..size).filter(|rank| get_slice(size, *rank, len).contains(&i)).count();
        assert_eq!(owners, 1);
    }
}

#[test]
fn largest_rank_count_does_not_overflow() {
    let size = i32::MAX;
    assert_eq!(get_slice(size, 0, 5), 0..1);
    assert_eq!(get_slice(size, 4, 5), 4..5);
    assert_eq!(get_slice(size, 5, 5), 5..5);
    assert_eq!(get_slice(size, size - 1, 5), 5..5);
    assert_eq!(get_slice(2, 1, usize::MAX), (usize::MAX / 2 + 1)..usize::MAX);
}

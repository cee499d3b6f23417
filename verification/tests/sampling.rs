use lance_cuvs::arith::div_ceil;
use lance_cuvs::host_memory::{copy_chunk, prefault_chunk, PARALLEL_COPY_MIN_BYTES_PER_THREAD};
use lance_cuvs::sampling::{train_rows, training_sample_ranges};

#[test]
fn nothing_is_sampled_from_nothing() {
    assert!(training_sample_ranges(0, 10).is_empty());
    assert!(training_sample_ranges(10, 0).is_empty());
}

#[test]
fn a_sample_of_all_rows_is_one_range() {
    assert_eq!(training_sample_ranges(10, 10), vec![0..10]);
    assert_eq!(training_sample_ranges(10, 99), vec![0..10]);
    assert_eq!(training_sample_ranges(100_000, 100_000), vec![0..100_000]);
}

#[test]
fn a_single_chunk_lies_in_the_middle() {
    assert_eq!(training_sample_ranges(10, 4), vec![3..7]);
    assert_eq!(training_sample_ranges(100_000, 8192), vec![45_904..54_096]);
}

#[test]
fn several_chunks_are_spread_evenly() {
    assert_eq!(
        training_sample_ranges(100_000, 20_000),
        vec![0..8192, 45_904..54_096, 96_384..100_000]
    );
    assert_eq!(training_sample_ranges(1_000_000, 16_384), vec![0..8192, 991_808..1_000_000]);
}

#[test]
fn samples_have_the_rows_asked_for_within_bounds() {
    for (num_rows, sample_rows) in
        [(9000, 8193), (16_386, 16_385), (70_000, 65_536), (1 << 40, 65_537), (12_345, 12_344)]
    {
        let ranges = training_sample_ranges(num_rows, sample_rows);
        let total: u64 = ranges.iter().map(|range| range.end - range.start).sum();
        assert_eq!(total, sample_rows as u64);
        assert_eq!(ranges[0].start, 0);
        assert_eq!(ranges[ranges.len() - 1].end, num_rows as u64);
        for pair in ranges.windows(2) {
            assert!(pair[0].start < pair[1].start);
            assert!(pair[0].end < pair[1].end);
        }
    }
}

#[test]
fn chunks_overlap_only_where_they_have_no_room() {
    let roomy = training_sample_ranges(24_576, 20_000);
    assert!(roomy.windows(2).all(|pair| pair[0].end <= pair[1].start));
    let tight = training_sample_ranges(16_386, 16_385);
    assert_eq!(tight, vec![0..8192, 4097..12_289, 16_385..16_386]);
    let two = training_sample_ranges(8194, 8193);
    assert_eq!(two, vec![0..8192, 8193..8194]);
}

#[test]
fn training_asks_for_enough_rows() {
    assert_eq!(train_rows(256, 256), 65_536);
    assert_eq!(train_rows(1, 1), 65_536);
    assert_eq!(train_rows(0, 5), 65_536);
    assert_eq!(train_rows(1024, 256), 262_144);
}

#[test]
fn quotients_are_rounded_up() {
    assert_eq!(div_ceil(0, 3), 0);
    assert_eq!(div_ceil(9, 3), 3);
    assert_eq!(div_ceil(10, 3), 4);
    assert_eq!(div_ceil(usize::MAX, 1), usize::MAX);
    assert_eq!(div_ceil(usize::MAX, 2), usize::MAX / 2 + 1);
}

#[test]
fn buffers_are_shared_among_threads() {
    assert_eq!(prefault_chunk(100, 8), 13);
    assert_eq!(prefault_chunk(3, 8), 1);
    assert_eq!(prefault_chunk(100, 0), 100);
    for (len, threads) in [(1usize, 1usize), (7, 3), (1000, 7), (13, 13), (5, 100)] {
        let chunk = prefault_chunk(len, threads);
        assert!(len.div_ceil(chunk) <= threads);
    }
}

#[test]
fn small_copies_stay_on_one_thread() {
    let per_thread = PARALLEL_COPY_MIN_BYTES_PER_THREAD / 4;
    assert_eq!(copy_chunk(100, 4, 8), 100);
    assert_eq!(copy_chunk(per_thread, 4, 8), per_thread);
    assert_eq!(copy_chunk(2 * per_thread, 4, 8), per_thread);
    assert_eq!(copy_chunk(10 * per_thread + 1, 4, 3), (10 * per_thread + 1).div_ceil(3));
    assert_eq!(copy_chunk(10 * per_thread, 4, 0), 10 * per_thread);
}

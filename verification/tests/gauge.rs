use lance_cuvs::alloc_trace::{
    enabled, maps_line, min_bytes, next_entry, AllocTracer, LogGuard, DEFAULT_TRACE_MIN_BYTES,
};
use lance_cuvs::large_alloc_gauge::{
    begin_window, end_window, on_alloc, on_dealloc, State, MIN_BYTES,
};

const LARGE: usize = MIN_BYTES;

#[test]
fn without_a_window_there_is_no_report() {
    let mut state = State::new();
    on_alloc(&mut state, LARGE, 5);
    assert!(end_window(&mut state, 10).is_none());
}

#[test]
fn a_window_weighs_time() {
    let mut state = State::new();
    on_alloc(&mut state, LARGE, 0);
    begin_window(&mut state, 100);
    on_alloc(&mut state, LARGE + 1, 110);
    on_alloc(&mut state, LARGE - 1, 115);
    on_alloc(&mut state, LARGE, 150);
    on_dealloc(&mut state, LARGE, 160);
    on_dealloc(&mut state, LARGE, 190);
    let report = end_window(&mut state, 200).unwrap();
    assert_eq!(report.live_at_start, 1);
    assert_eq!(report.live_at_end, 1);
    assert_eq!(report.peak, 3);
    assert_eq!(report.peak_bytes, 3 * LARGE + 1);
    assert_eq!(report.time_to_peak, 50);
    assert_eq!(report.window, 100);
    // One live for 10 + 10, two for 40 + 30, three for 10.
    assert_eq!(report.weighted, 20 + 2 * 70 + 3 * 10);
    assert_eq!((report.p50, report.p90, report.p99), (2, 2, 3));
    assert!(end_window(&mut state, 300).is_none());
}

#[test]
fn an_empty_window_reports_the_lowest_count() {
    let mut state = State::new();
    on_alloc(&mut state, LARGE, 0);
    begin_window(&mut state, 100);
    let report = end_window(&mut state, 100).unwrap();
    assert_eq!((report.window, report.weighted), (0, 0));
    assert_eq!((report.p50, report.p90, report.p99), (0, 0, 0));
    assert_eq!(report.peak, 1);
}

#[test]
fn frees_undo_allocations_and_never_go_below_zero() {
    let mut state = State::new();
    on_alloc(&mut state, LARGE, 0);
    on_dealloc(&mut state, LARGE, 1);
    on_dealloc(&mut state, LARGE, 2);
    on_alloc(&mut state, LARGE + 7, 3);
    begin_window(&mut state, 4);
    let report = end_window(&mut state, 5).unwrap();
    assert_eq!(report.live_at_start, 1);
    assert_eq!(report.peak_bytes, LARGE + 7);
}

#[test]
fn high_counts_share_the_last_bucket() {
    let mut state = State::new();
    for _ in 0..200 {
        on_alloc(&mut state, LARGE, 0);
    }
    begin_window(&mut state, 0);
    let report = end_window(&mut state, 10).unwrap();
    assert_eq!(report.peak, 200);
    assert_eq!((report.live_at_start, report.live_at_end), (200, 200));
    assert_eq!(report.weighted, 200 * 10);
    assert_eq!((report.p50, report.p90, report.p99), (128, 128, 128));
    // The window is gone, and what is live is not.
    assert!(end_window(&mut state, 11).is_none());
    begin_window(&mut state, 11);
    assert_eq!(end_window(&mut state, 11).unwrap().live_at_end, 200);
}

#[test]
fn time_is_booked_on_the_count_before_a_change() {
    let mut state = State::new();
    begin_window(&mut state, 0);
    on_alloc(&mut state, LARGE, 90);
    let report = end_window(&mut state, 100).unwrap();
    assert_eq!((report.p50, report.p90, report.p99), (0, 0, 1));
    assert_eq!(report.weighted, 10);
}

#[test]
fn a_clock_that_goes_backwards_adds_no_time() {
    let mut state = State::new();
    begin_window(&mut state, 100);
    on_alloc(&mut state, LARGE, 50);
    let report = end_window(&mut state, 40).unwrap();
    assert_eq!(report.window, 0);
    assert_eq!(report.time_to_peak, 0);
}

#[test]
fn opening_a_window_replaces_the_open_one() {
    let mut state = State::new();
    begin_window(&mut state, 0);
    begin_window(&mut state, 90);
    assert_eq!(end_window(&mut state, 100).unwrap().window, 10);
}

#[test]
fn a_full_gauge_says_so() {
    let mut state = State::new();
    assert!(state.has_room(true, usize::MAX, 0));
    state.change(true, usize::MAX, 0);
    assert!(!state.has_room(true, 1, 0));
    assert!(state.has_room(false, 1, 0));
}

#[test]
fn only_allocations_that_succeeded_count() {
    let tracer = AllocTracer;
    let mut state = State::new();
    assert!(tracer.count_alloc(&mut state, false, LARGE, 0));
    assert!(tracer.count_alloc(&mut state, true, LARGE, 0));
    assert!(tracer.count_alloc_zeroed(&mut state, true, LARGE, 0));
    assert!(tracer.count_alloc(&mut state, true, LARGE - 1, 0));
    assert!(tracer.count_dealloc(&mut state, LARGE, 0));
    begin_window(&mut state, 0);
    let report = end_window(&mut state, 1).unwrap();
    assert_eq!((report.peak, report.peak_bytes), (1, LARGE));
}

#[test]
fn resizing_moves_the_gauge_only_on_success() {
    let tracer = AllocTracer;
    let mut state = State::new();
    tracer.count_alloc(&mut state, true, LARGE, 0);
    tracer.count_realloc(&mut state, false, LARGE, 3 * LARGE, 0);
    tracer.count_realloc(&mut state, true, LARGE, 2 * LARGE, 0);
    begin_window(&mut state, 0);
    let report = end_window(&mut state, 1).unwrap();
    assert_eq!((report.peak, report.peak_bytes), (1, 2 * LARGE));
    tracer.count_realloc(&mut state, true, 2 * LARGE, 10, 0);
    begin_window(&mut state, 0);
    assert_eq!(end_window(&mut state, 1).unwrap().peak, 0);
    assert!(tracer.count_alloc(&mut state, true, usize::MAX, 0));
    assert!(!tracer.count_realloc(&mut state, true, 10, LARGE, 0));
}

#[test]
fn tracing_is_off_unless_asked_for() {
    assert!(enabled(Some("1")));
    assert!(!enabled(Some("true")));
    assert!(!enabled(Some("11")));
    assert!(!enabled(Some("")));
    assert!(!enabled(None));
    assert_eq!(min_bytes(None), DEFAULT_TRACE_MIN_BYTES);
    assert_eq!(min_bytes(Some("12")), 12);
    assert_eq!(min_bytes(Some("0")), 0);
    assert_eq!(min_bytes(Some("many")), 2_097_152);
}

#[test]
fn the_logger_does_not_log_itself() {
    let mut guard = LogGuard::new();
    assert!(!guard.enter(false, 10, 100));
    assert!(!guard.enter(true, 10, 9));
    assert!(guard.enter(true, 10, 10));
    assert!(!guard.enter(true, 10, 100));
    guard.leave();
    assert!(guard.enter(true, 10, 100));
}

#[test]
fn log_entries_are_numbered() {
    let mut counter = u64::MAX - 1;
    assert_eq!(next_entry(&mut counter), u64::MAX - 1);
    assert_eq!(next_entry(&mut counter), u64::MAX);
    assert_eq!(next_entry(&mut counter), 0);
}

#[test]
fn the_map_keeps_the_native_modules_lines() {
    let lines: Vec<String> = [
        "7f00-7f01 r-xp libc.so",
        "7f10-7f11 r-xp /x/_native.abi3.so",
        "7f11-7f12 r--p /x/_native.abi3.so",
        "_native.abi3.s",
    ]
    .iter()
    .map(|line| line.to_string())
    .collect();
    assert_eq!(
        maps_line(Some(&lines)),
        "7f10-7f11 r-xp /x/_native.abi3.so\n7f11-7f12 r--p /x/_native.abi3.so"
    );
    assert_eq!(maps_line(Some(&vec![])), "");
    assert_eq!(maps_line(None), "<failed to read /proc/self/maps>");
}

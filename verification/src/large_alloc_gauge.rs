//! Gauge of live large allocations (at least [`MIN_BYTES`] each), fed by the global allocator.
//!
//! While batches are transformed, the only allocations this large are decoded vector buffers,
//! so the live count says how many decoded batches the queues hold at once. Counting is always
//! on; time is weighed only between [`begin_window`] and [`end_window`]. Nothing here
//! allocates, for it runs inside the allocator. Clock readings are handed in.

use crate::arith::{greatest, least, lemma_total_grows, total};
use crate::stats::{Nanos, MAX_NANOS};
use vstd::prelude::*;

verus! {

/// Above the intermediate buffers of decoding, below the decoded batches.
pub const MIN_BYTES: usize = 256 * 1024 * 1024;

/// Live counts at or above this share the last bucket.
pub const MAX_TRACKED: usize = 128;

/// Buckets of the histogram.
pub const BUCKETS: usize = 129;

/// An open measuring window.
#[derive(Debug)]
pub struct Window {
    start: Nanos,
    last_change: Nanos,
    live_at_start: usize,
    peak: usize,
    peak_bytes: usize,
    time_to_peak: Nanos,
    // time_at[k] is the time spent with k large allocations live.
    time_at: [Nanos; BUCKETS],
    // Every live count times the time that it was live for, added up.
    weighted: u128,
}

/// The gauge: what is live, and the open window if there is one.
#[derive(Debug)]
pub struct State {
    live: usize,
    live_bytes: usize,
    window: Option<Window>,
}

/// An open window as mathematical values.
#[verifier::ext_equal]
pub struct WindowView {
    pub start: Nanos,
    pub last_change: Nanos,
    pub live_at_start: usize,
    pub peak: usize,
    pub peak_bytes: usize,
    pub time_to_peak: Nanos,
    pub time_at: Seq<Nanos>,
    pub weighted: u128,
}

/// The gauge as mathematical values.
#[verifier::ext_equal]
pub struct StateView {
    pub live: usize,
    pub live_bytes: usize,
    pub window: Option<WindowView>,
}

impl View for Window {
    type V = WindowView;

    closed spec fn view(&self) -> WindowView {
        WindowView {
            start: self.start,
            last_change: self.last_change,
            live_at_start: self.live_at_start,
            peak: self.peak,
            peak_bytes: self.peak_bytes,
            time_to_peak: self.time_to_peak,
            time_at: self.time_at@,
            weighted: self.weighted,
        }
    }
}

impl View for State {
    type V = StateView;

    closed spec fn view(&self) -> StateView {
        StateView {
            live: self.live,
            live_bytes: self.live_bytes,
            window: match self.window {
                Some(window) => Some(window@),
                None => None,
            },
        }
    }
}

/// The time from one clock reading to another, zero where the second is not later.
pub open spec fn elapsed(from: Nanos, to: Nanos) -> Nanos {
    if to > from {
        (to - from) as u128
    } else {
        0
    }
}

/// The bucket of a live count.
pub open spec fn bucket(live: usize) -> int {
    least(live as int, MAX_TRACKED as int)
}

impl WindowView {
    /// As many buckets as there are counts to tell apart, none of them over-full.
    pub open spec fn wf(self) -> bool {
        &&& self.time_at.len() == BUCKETS
        &&& forall|k: int|
            0 <= k < BUCKETS ==> #[trigger] self.time_at[k] <= MAX_NANOS
    }

    /// The window after the time since the last change has been booked on `live`.
    pub open spec fn weighed(self, live: usize, now: Nanos) -> WindowView {
        WindowView {
            time_at: self.time_at.update(
                bucket(live),
                (self.time_at[bucket(live)] + elapsed(self.last_change, now)) as u128,
            ),
            last_change: now,
            weighted: (self.weighted + live * elapsed(self.last_change, now)) as u128,
            ..self
        }
    }

    /// Whether the time since the last change can be booked.
    pub open spec fn can_weigh(self, live: usize, now: Nanos) -> bool {
        &&& self.time_at[bucket(live)] + elapsed(self.last_change, now) <= MAX_NANOS
        &&& self.weighted + live * elapsed(self.last_change, now) <= u128::MAX
    }

    /// The window after the live count became `live`.
    pub open spec fn peaked(self, live: usize, live_bytes: usize, now: Nanos) -> WindowView {
        if live > self.peak {
            WindowView {
                peak: live,
                peak_bytes: live_bytes,
                time_to_peak: elapsed(self.start, now),
                ..self
            }
        } else {
            self
        }
    }
}

impl StateView {
    pub open spec fn wf(self) -> bool {
        self.window matches Some(window) ==> window.wf()
    }

    /// Whether an allocation can still be counted, and the time since the last change booked.
    pub open spec fn has_room(self, allocated: bool, size: usize, now: Nanos) -> bool {
        &&& allocated ==> self.live < usize::MAX && self.live_bytes + size <= usize::MAX
        &&& self.window matches Some(window) ==> window.can_weigh(self.live, now)
    }

    /// The gauge after one large allocation was made or freed. Freeing more than is live
    /// leaves nothing live.
    pub open spec fn changed(self, allocated: bool, size: usize, now: Nanos) -> StateView {
        let live = if allocated {
            (self.live + 1) as usize
        } else if self.live > 0 {
            (self.live - 1) as usize
        } else {
            0
        };
        let live_bytes = if allocated {
            (self.live_bytes + size) as usize
        } else if self.live_bytes > size {
            (self.live_bytes - size) as usize
        } else {
            0
        };
        StateView {
            live,
            live_bytes,
            window: match self.window {
                Some(window) => Some(
                    window.weighed(self.live, now).peaked(live, live_bytes, now),
                ),
                None => None,
            },
        }
    }

    /// The gauge after a window was opened.
    pub open spec fn opened(self, now: Nanos) -> StateView {
        StateView {
            window: Some(
                WindowView {
                    start: now,
                    last_change: now,
                    live_at_start: self.live,
                    peak: self.live,
                    peak_bytes: self.live_bytes,
                    time_to_peak: 0,
                    time_at: Seq::new(BUCKETS as nat, |k: int| 0),
                    weighted: 0,
                },
            ),
            ..self
        }
    }

    /// The gauge after its window, if one was open, was closed.
    pub open spec fn ended(self) -> StateView {
        StateView { window: None, ..self }
    }
}

impl Window {
    fn weigh(&mut self, live: usize, now: Nanos)
        requires
            old(self)@.wf(),
            old(self)@.can_weigh(live, now),
        ensures
            final(self)@ == old(self)@.weighed(live, now),
            final(self)@.wf(),
    {
        let slot: usize = if live < MAX_TRACKED {
            live
        } else {
            MAX_TRACKED
        };
        let spent: u128 = now.saturating_sub(self.last_change);
        let ghost before = self.time_at@;
        assert(0 <= live * spent) by (nonlinear_arith);
        self.weighted = self.weighted + live as u128 * spent;
        self.time_at[slot] = self.time_at[slot] + spent;
        self.last_change = now;
        assert(self.time_at@ =~= before.update(
            slot as int,
            (before[slot as int] + spent) as u128,
        ));
    }
}

impl State {
    /// A gauge with nothing live and no window open.
    pub fn new() -> (state: State)
        ensures
            state@ == (StateView { live: 0, live_bytes: 0, window: None }),
            state@.wf(),
    {
        State { live: 0, live_bytes: 0, window: None }
    }

    /// Whether [`State::change`] can count this.
    pub fn has_room(&self, allocated: bool, size: usize, now: Nanos) -> (room: bool)
        requires
            self@.wf(),
        ensures
            room == self@.has_room(allocated, size, now),
    {
        if allocated && (self.live == usize::MAX || self.live_bytes > usize::MAX - size) {
            return false;
        }
        match &self.window {
            Some(window) => {
                let slot: usize = if self.live < MAX_TRACKED {
                    self.live
                } else {
                    MAX_TRACKED
                };
                assert(window@.time_at[slot as int] <= MAX_NANOS);
                let spent: u128 = now.saturating_sub(window.last_change);
                if spent > MAX_NANOS - window.time_at[slot] {
                    return false;
                }
                assert(0 <= self.live * spent) by (nonlinear_arith);
                match (self.live as u128).checked_mul(spent) {
                    Some(weight) => weight <= u128::MAX - window.weighted,
                    None => false,
                }
            },
            None => true,
        }
    }

    /// Counts one large allocation that was made or freed.
    pub fn change(&mut self, allocated: bool, size: usize, now: Nanos)
        requires
            old(self)@.wf(),
            old(self)@.has_room(allocated, size, now),
        ensures
            final(self)@ == old(self)@.changed(allocated, size, now),
            final(self)@.wf(),
    {
        let live: usize = if allocated {
            self.live + 1
        } else {
            self.live.saturating_sub(1)
        };
        let live_bytes: usize = if allocated {
            self.live_bytes + size
        } else {
            self.live_bytes.saturating_sub(size)
        };
        let before: usize = self.live;
        let mut opened: Option<Window> = None;
        std::mem::swap(&mut opened, &mut self.window);
        if let Some(mut window) = opened {
            window.weigh(before, now);
            if live > window.peak {
                window.peak = live;
                window.peak_bytes = live_bytes;
                window.time_to_peak = now.saturating_sub(window.start);
            }
            self.window = Some(window);
        }
        self.live = live;
        self.live_bytes = live_bytes;
    }
}

/// Counts an allocation of `size` bytes, if it is a large one.
pub fn on_alloc(state: &mut State, size: usize, now: Nanos)
    requires
        old(state)@.wf(),
        size >= MIN_BYTES ==> old(state)@.has_room(true, size, now),
    ensures
        final(state)@ == if size >= MIN_BYTES {
            old(state)@.changed(true, size, now)
        } else {
            old(state)@
        },
        size < 256 * 1024 * 1024 ==> final(state)@ == old(state)@,
        size >= 256 * 1024 * 1024 ==> final(state)@ == old(state)@.changed(true, size, now),
        final(state)@.wf(),
{
    if size >= MIN_BYTES {
        state.change(true, size, now);
    }
}

/// Counts the freeing of `size` bytes, if they were a large allocation.
pub fn on_dealloc(state: &mut State, size: usize, now: Nanos)
    requires
        old(state)@.wf(),
        size >= MIN_BYTES ==> old(state)@.has_room(false, size, now),
    ensures
        final(state)@ == if size >= MIN_BYTES {
            old(state)@.changed(false, size, now)
        } else {
            old(state)@
        },
        size < 256 * 1024 * 1024 ==> final(state)@ == old(state)@,
        size >= 256 * 1024 * 1024 ==> final(state)@ == old(state)@.changed(false, size, now),
        final(state)@.wf(),
{
    if size >= MIN_BYTES {
        state.change(false, size, now);
    }
}

/// Starts to weigh time; replaces any open window.
pub fn begin_window(state: &mut State, now: Nanos)
    ensures
        final(state)@ == old(state)@.opened(now),
        final(state)@.wf(),
{
    let window = Window {
        start: now,
        last_change: now,
        live_at_start: state.live,
        peak: state.live,
        peak_bytes: state.live_bytes,
        time_to_peak: 0,
        time_at: [0u128; 129],
        weighted: 0,
    };
    assert(window.time_at@ =~= Seq::new(BUCKETS as nat, |k: int| 0u128));
    state.window = Some(window);
}

/// What a window measured.
#[derive(Debug, Clone, Copy)]
pub struct GaugeReport {
    pub live_at_start: usize,
    pub live_at_end: usize,
    pub peak: usize,
    pub peak_bytes: usize,
    pub time_to_peak: Nanos,
    pub window: Nanos,
    /// Every live count times the time that it was live for, added up. Divided by `window` it
    /// is the time-weighted mean live count.
    pub weighted: u128,
    /// The smallest k such that the live count was at most k for 50, 90 and 99 percent of the
    /// window. Counts from [`MAX_TRACKED`] on are not told apart and stand as [`MAX_TRACKED`].
    pub p50: usize,
    pub p90: usize,
    pub p99: usize,
}

/// The time in the first `len` buckets.
pub open spec fn time_below(times: Seq<Nanos>, len: int) -> int
    decreases len,
{
    if len <= 0 {
        0
    } else {
        time_below(times, len - 1) + times[len - 1]
    }
}

/// Whether the live count was in one of the buckets up to `k` for `percent` percent of `total`.
pub open spec fn covers(times: Seq<Nanos>, percent: int, total: int, k: int) -> bool {
    time_below(times, k + 1) * 100 >= percent * total
}

/// Whether `k` is the smallest count that covers `percent` percent of `total`; where none
/// does, it is the last one.
pub open spec fn is_percentile(times: Seq<Nanos>, percent: int, total: int, k: int) -> bool {
    &&& 0 <= k <= MAX_TRACKED
    &&& covers(times, percent, total, k) || k == MAX_TRACKED
    &&& forall|j: int| 0 <= j < k ==> !#[trigger] covers(times, percent, total, j)
}

proof fn lemma_time_bound(times: Seq<Nanos>, len: int)
    requires
        0 <= len <= times.len(),
        times.len() == BUCKETS,
        forall|k: int| 0 <= k < BUCKETS ==> #[trigger] times[k] <= MAX_NANOS,
    ensures
        0 <= time_below(times, len) <= len * MAX_NANOS,
    decreases len,
{
    if len > 0 {
        lemma_time_bound(times, len - 1);
    }
}

fn percentile(times: &[Nanos; BUCKETS], percent: u128, total: Nanos) -> (count: usize)
    requires
        forall|k: int| 0 <= k < BUCKETS ==> #[trigger] times@[k] <= MAX_NANOS,
        percent <= 100,
        total <= MAX_NANOS,
    ensures
        is_percentile(times@, percent as int, total as int, count as int),
{
    let mut cumulative: u128 = 0;
    let mut k: usize = 0;
    assert(percent * total <= 100 * MAX_NANOS) by (nonlinear_arith)
        requires
            percent <= 100,
            total <= MAX_NANOS,
    ;
    while k < BUCKETS
        invariant
            times@.len() == BUCKETS,
            k <= BUCKETS,
            forall|j: int| 0 <= j < BUCKETS ==> #[trigger] times@[j] <= MAX_NANOS,
            percent * total <= 100 * MAX_NANOS,
            cumulative == time_below(times@, k as int),
            forall|j: int|
                0 <= j < k ==> !#[trigger] covers(times@, percent as int, total as int, j),
        decreases BUCKETS - k,
    {
        proof {
            lemma_time_bound(times@, k + 1);
        }
        cumulative = cumulative + times[k];
        assert(cumulative == time_below(times@, k + 1));
        if cumulative * 100 >= percent * total {
            assert(covers(times@, percent as int, total as int, k as int));
            return k;
        }
        assert(!covers(times@, percent as int, total as int, k as int));
        k = k + 1;
    }
    assert(!covers(times@, percent as int, total as int, MAX_TRACKED as int));
    MAX_TRACKED
}

/// Whether `report` is what `window`, closed at `now` with `live` allocations live, measured.
pub open spec fn reports(
    report: GaugeReport,
    window: WindowView,
    live: usize,
    now: Nanos,
) -> bool {
    let closed = window.weighed(live, now);
    let times = closed.time_at;
    let total = elapsed(window.start, now);
    &&& report.live_at_start == window.live_at_start
    &&& report.live_at_end == live
    &&& report.peak == window.peak
    &&& report.peak_bytes == window.peak_bytes
    &&& report.time_to_peak == window.time_to_peak
    &&& report.window == total
    &&& report.weighted == closed.weighted
    &&& is_percentile(times, 50, total as int, report.p50 as int)
    &&& is_percentile(times, 90, total as int, report.p90 as int)
    &&& is_percentile(times, 99, total as int, report.p99 as int)
}

/// Closes the open window and reports on it; `None` if none is open.
pub fn end_window(state: &mut State, now: Nanos) -> (report: Option<GaugeReport>)
    requires
        old(state)@.wf(),
        old(state)@.window matches Some(window) ==> {
            &&& window.can_weigh(old(state)@.live, now)
            &&& elapsed(window.start, now) <= MAX_NANOS
        },
    ensures
        final(state)@ == old(state)@.ended(),
        match (report, old(state)@.window) {
            (Some(report), Some(window)) => reports(report, window, old(state)@.live, now),
            (None, None) => true,
            _ => false,
        },
{
    let live: usize = state.live;
    let mut opened: Option<Window> = None;
    std::mem::swap(&mut opened, &mut state.window);
    match opened {
        None => None,
        Some(mut window) => {
            window.weigh(live, now);
            let total: u128 = now.saturating_sub(window.start);
            assert forall|k: int| 0 <= k < BUCKETS implies #[trigger] window.time_at@[k]
                <= MAX_NANOS by {
                assert(window@.time_at[k] <= MAX_NANOS);
            }
            Some(
                GaugeReport {
                    live_at_start: window.live_at_start,
                    live_at_end: live,
                    peak: window.peak,
                    peak_bytes: window.peak_bytes,
                    time_to_peak: window.time_to_peak,
                    window: total,
                    weighted: window.weighted,
                    p50: percentile(&window.time_at, 50, total),
                    p90: percentile(&window.time_at, 90, total),
                    p99: percentile(&window.time_at, 99, total),
                },
            )
        },
    }
}

impl WindowView {
    /// Whether the buckets account for all time up to the last change.
    pub open spec fn accounts_for_time(self) -> bool {
        &&& self.wf()
        &&& self.start <= self.last_change
        &&& time_below(self.time_at, BUCKETS as int) == self.last_change - self.start
    }

    /// Whether no time was spent with more live than the peak.
    pub open spec fn no_time_above_peak(self) -> bool {
        forall|k: int| bucket(self.peak) < k < BUCKETS ==> #[trigger] self.time_at[k] == 0
    }
}

impl StateView {
    /// Whether an open window accounts for all time, none of it above the peak; and its peak is
    /// no less than what is live or was live on the mean, and was reached within the window.
    pub open spec fn measures(self) -> bool {
        self.window matches Some(window) ==> {
            &&& window.accounts_for_time()
            &&& window.peak >= self.live
            &&& window.peak >= window.live_at_start
            &&& window.weighted <= window.peak * (window.last_change - window.start)
            &&& window.time_to_peak <= window.last_change - window.start
            &&& window.no_time_above_peak()
        }
    }
}

/// Freeing what was just allocated restores both counts.
pub proof fn law_free_undoes_alloc(state: StateView, size: usize, made: Nanos, freed: Nanos)
    requires
        state.has_room(true, size, made),
    ensures
        state.changed(true, size, made).changed(false, size, freed).live == state.live,
        state.changed(true, size, made).changed(false, size, freed).live_bytes
            == state.live_bytes,
{
}

/// A change books the time since the last one on the count that was live until now, and on no
/// other: it goes into that count's bucket, and is weighed by the count itself. When the window
/// was opened, and with what, stays as it was.
pub proof fn law_change_books_time_on_the_count_before(
    state: StateView,
    allocated: bool,
    size: usize,
    now: Nanos,
)
    requires
        state.wf(),
        state.has_room(allocated, size, now),
        state.window matches Some(window) && window.last_change <= now,
    ensures
        ({
            let before = state.window->0;
            let spent = now - before.last_change;
            state.changed(allocated, size, now).window matches Some(after) && {
                &&& after.time_at.len() == before.time_at.len()
                &&& after.time_at[bucket(state.live)] == before.time_at[bucket(state.live)] + spent
                &&& forall|k: int|
                    0 <= k < BUCKETS && k != bucket(state.live) ==> #[trigger] after.time_at[k]
                        == before.time_at[k]
                &&& after.weighted == before.weighted + state.live * spent
                &&& after.last_change == now
                &&& after.start == before.start
                &&& after.live_at_start == before.live_at_start
            }
        }),
{
    let spent = elapsed(state.window->0.last_change, now);
    assert(0 <= state.live * spent) by (nonlinear_arith);
}

/// Closing a window leaves what is live, and no window: closing once more closes nothing.
pub proof fn law_ended_window_is_gone(state: StateView)
    ensures
        state.ended().window is None,
        state.ended().live == state.live,
        state.ended().live_bytes == state.live_bytes,
        state.ended().ended() == state.ended(),
{
}

/// A window that was just opened measures.
pub proof fn law_opened_window_measures(state: StateView, now: Nanos)
    ensures
        state.opened(now).measures(),
{
    let times = Seq::new(BUCKETS as nat, |k: int| 0u128);
    lemma_no_time(times, BUCKETS as int);
    assert(state.opened(now).window->0.time_at =~= times);
}

proof fn lemma_no_time(times: Seq<Nanos>, len: int)
    requires
        0 <= len <= times.len(),
        forall|k: int| 0 <= k < times.len() ==> #[trigger] times[k] == 0,
    ensures
        time_below(times, len) == 0,
    decreases len,
{
    if len > 0 {
        lemma_no_time(times, len - 1);
    }
}

/// As long as the clock does not go backwards, every change keeps the window measuring: no
/// time is lost or booked twice, and the peak is never below what is live or was.
pub proof fn law_changes_keep_measuring(
    state: StateView,
    allocated: bool,
    size: usize,
    now: Nanos,
)
    requires
        state.measures(),
        state.has_room(allocated, size, now),
        state.window matches Some(window) ==> window.last_change <= now,
    ensures
        state.changed(allocated, size, now).measures(),
{
    if let Some(window) = state.window {
        lemma_weighed_accounts(window, state.live, now);
        lemma_mean_below_peak(window, state.live, now);
        let after = state.changed(allocated, size, now).window->0;
        assert(after.time_at == window.weighed(state.live, now).time_at);
        assert(bucket(state.live) <= bucket(window.peak) <= bucket(after.peak));
        assert(window.peak * (now - window.start) <= after.peak * (now - window.start))
            by (nonlinear_arith)
            requires
                window.peak <= after.peak,
                window.start <= now,
        ;
    }
}

proof fn lemma_mean_below_peak(window: WindowView, live: usize, now: Nanos)
    requires
        window.can_weigh(live, now),
        window.start <= window.last_change <= now,
        window.peak >= live,
        window.weighted <= window.peak * (window.last_change - window.start),
    ensures
        window.weighed(live, now).weighted <= window.peak * (now - window.start),
{
    let spent = elapsed(window.last_change, now);
    let until = window.last_change - window.start;
    assert(0 <= live * spent <= window.peak * spent) by (nonlinear_arith)
        requires
            0 <= live <= window.peak,
            0 <= spent,
    ;
    assert(window.peak * until + window.peak * spent == window.peak * (until + spent))
        by (nonlinear_arith);
}

proof fn lemma_weighed_accounts(window: WindowView, live: usize, now: Nanos)
    requires
        window.accounts_for_time(),
        window.can_weigh(live, now),
        window.last_change <= now,
    ensures
        window.weighed(live, now).accounts_for_time(),
{
    let spent = elapsed(window.last_change, now);
    lemma_time_updated(window.time_at, bucket(live), spent, BUCKETS as int);
    assert(window.weighed(live, now).wf());
}

proof fn lemma_time_updated(times: Seq<Nanos>, at: int, spent: Nanos, len: int)
    requires
        0 <= at < times.len(),
        0 <= len <= times.len(),
        times[at] + spent <= u128::MAX,
    ensures
        time_below(times.update(at, (times[at] + spent) as u128), len) == time_below(times, len)
            + if at < len {
            spent as int
        } else {
            0
        },
    decreases len,
{
    if len > 0 {
        lemma_time_updated(times, at, spent, len - 1);
    }
}

proof fn lemma_time_ends(times: Seq<Nanos>, from: int, len: int)
    requires
        0 <= from <= len <= times.len(),
        forall|k: int| from <= k < times.len() ==> #[trigger] times[k] == 0,
    ensures
        time_below(times, len) == time_below(times, from),
    decreases len,
{
    if from < len {
        lemma_time_ends(times, from, len - 1);
    }
}

/// What a measuring window reports: percentiles in order and no more than the largest count
/// that is told apart, all of them reached; a peak no lower than the live counts at either end,
/// nor than the mean, nor than any percentile; and a peak that was reached within the window.
pub proof fn law_report_is_consistent(
    report: GaugeReport,
    state: StateView,
    now: Nanos,
)
    requires
        state.measures(),
        state.window matches Some(window) && {
            &&& window.last_change <= now
            &&& window.can_weigh(state.live, now)
            &&& reports(report, window, state.live, now)
        },
    ensures
        report.p50 <= report.p90 <= report.p99 <= MAX_TRACKED,
        covers(
            state.window->0.weighed(state.live, now).time_at,
            99,
            report.window as int,
            report.p99 as int,
        ),
        report.peak >= report.live_at_start,
        report.peak >= report.live_at_end,
        report.weighted <= report.peak * report.window,
        report.p99 <= report.peak,
        report.time_to_peak <= report.window,
{
    let window = state.window->0;
    let closed = window.weighed(state.live, now);
    let total = elapsed(window.start, now) as int;
    lemma_weighed_accounts(window, state.live, now);
    lemma_mean_below_peak(window, state.live, now);
    assert(bucket(state.live) <= bucket(window.peak));
    lemma_time_ends(closed.time_at, bucket(window.peak) + 1, BUCKETS as int);
    assert(covers(closed.time_at, 99, total, bucket(window.peak)));
    assert(time_below(closed.time_at, MAX_TRACKED + 1) == total);
    assert(covers(closed.time_at, 50, total, MAX_TRACKED as int));
    assert(covers(closed.time_at, 90, total, MAX_TRACKED as int));
    assert(covers(closed.time_at, 99, total, MAX_TRACKED as int));
    assert(covers(closed.time_at, 50, total, report.p90 as int));
    assert(covers(closed.time_at, 90, total, report.p99 as int));
}

/// Where nothing is made or freed while a window is open, the mean is the live count, whatever
/// it is, and so are the peak and both ends. The percentiles are that count too, as far as
/// counts are told apart.
pub proof fn law_steady_count_is_the_mean(
    report: GaugeReport,
    state: StateView,
    start: Nanos,
    now: Nanos,
)
    requires
        start < now,
        state.opened(start).window->0.can_weigh(state.live, now),
        reports(report, state.opened(start).window->0, state.live, now),
    ensures
        report.window == now - start,
        report.weighted == state.live * report.window,
        report.peak == state.live,
        report.live_at_start == state.live,
        report.live_at_end == state.live,
        report.p50 == bucket(state.live),
        report.p90 == bucket(state.live),
        report.p99 == bucket(state.live),
{
    let window = state.opened(start).window->0;
    let times = window.weighed(state.live, now).time_at;
    let total = (now - start) as u128;
    let at = bucket(state.live);
    assert(0 <= state.live * total) by (nonlinear_arith);
    assert forall|k: int| 0 <= k <= MAX_TRACKED implies #[trigger] time_below(times, k + 1) == if at
        <= k {
        total as int
    } else {
        0
    } by {
        lemma_no_time(window.time_at, k + 1);
        lemma_time_updated(window.time_at, at, total, k + 1);
    }
    assert forall|percent: int, k: int|
        0 < percent <= 100 && 0 <= k <= MAX_TRACKED implies #[trigger] covers(
        times,
        percent,
        total as int,
        k,
    ) == (at <= k) by {
        assert(time_below(times, k + 1) == if at <= k {
            total as int
        } else {
            0
        });
        assert(0 < percent * total <= 100 * total) by (nonlinear_arith)
            requires
                0 < percent <= 100,
                0 < total,
        ;
    }
    assert(covers(times, 50, total as int, at));
    assert(covers(times, 90, total as int, at));
    assert(covers(times, 99, total as int, at));
}

/// An allocation counts one more and its bytes, and a freeing counts one less and its bytes,
/// though never below nothing. Whether a window is open does not change with it.
pub proof fn law_counts_follow_the_allocations(
    state: StateView,
    allocated: bool,
    size: usize,
    now: Nanos,
)
    requires
        state.has_room(allocated, size, now),
    ensures
        ({
            let after = state.changed(allocated, size, now);
            &&& allocated ==> {
                &&& after.live == state.live + 1
                &&& after.live_bytes == state.live_bytes + size
            }
            &&& !allocated ==> {
                &&& after.live == greatest(state.live - 1, 0)
                &&& after.live_bytes == greatest(state.live_bytes - size, 0)
            }
            &&& after.window is Some <==> state.window is Some
        }),
{
}

/// The peak is the largest count so far. The bytes and the time that go with it are those of the
/// change that reached it, and a change that only reaches it again leaves them.
pub proof fn law_peak_is_the_largest_count(
    state: StateView,
    allocated: bool,
    size: usize,
    now: Nanos,
)
    requires
        state.has_room(allocated, size, now),
        state.window is Some,
    ensures
        ({
            let before = state.window->0;
            let after = state.changed(allocated, size, now);
            after.window matches Some(window) && {
                &&& window.peak == greatest(before.peak as int, after.live as int)
                &&& after.live > before.peak ==> {
                    &&& window.peak_bytes == after.live_bytes
                    &&& window.time_to_peak == greatest(now - before.start, 0)
                }
                &&& after.live <= before.peak ==> {
                    &&& window.peak_bytes == before.peak_bytes
                    &&& window.time_to_peak == before.time_to_peak
                }
            }
        }),
{
}

/// A window opens with what is live: that is its start and its peak so far, and no time is
/// booked yet. What is live stays as it was, and whatever window was open is gone.
pub proof fn law_opened_window_starts_afresh(state: StateView, now: Nanos)
    ensures
        ({
            let opened = state.opened(now);
            &&& opened.live == state.live
            &&& opened.live_bytes == state.live_bytes
            &&& opened.window matches Some(window)
            &&& window.start == now
            &&& window.last_change == now
            &&& window.live_at_start == state.live
            &&& window.peak == state.live
            &&& window.peak_bytes == state.live_bytes
            &&& window.time_to_peak == 0
            &&& window.weighted == 0
            &&& window.time_at.len() == MAX_TRACKED + 1
            &&& forall|k: int| 0 <= k <= MAX_TRACKED ==> #[trigger] window.time_at[k] == 0
        }),
{
}

/// The time in the first buckets is the sum of what each holds.
pub proof fn law_bucket_times_add_up(times: Seq<Nanos>, len: int)
    requires
        0 <= len <= times.len(),
    ensures
        time_below(times, len) == total(times.take(len).map_values(|time: Nanos| time as int)),
    decreases len,
{
    let spans = times.take(len).map_values(|time: Nanos| time as int);
    if len == 0 {
        assert(spans =~= Seq::empty());
        lemma_total_grows(spans, 0);
    } else {
        law_bucket_times_add_up(times, len - 1);
        let before = times.take(len - 1).map_values(|time: Nanos| time as int);
        lemma_total_grows(before, times[len - 1] as int);
        assert(spans =~= before.push(times[len - 1] as int));
    }
}

/// What a report tells of its window: how long it was open, what was live at either end, its
/// peak with the bytes and the time that go with it, and the counts weighed by their times, the
/// time since the last change among them. The count was at most a percentile for that share of
/// the window, and at most one less for less than that share.
pub proof fn law_report_tells_of_its_window(report: GaugeReport, state: StateView, now: Nanos)
    requires
        state.measures(),
        state.window matches Some(window) && {
            &&& window.last_change <= now
            &&& window.can_weigh(state.live, now)
            &&& reports(report, window, state.live, now)
        },
    ensures
        ({
            let window = state.window->0;
            let spent = now - window.last_change;
            let at = least(state.live as int, MAX_TRACKED as int);
            let times = window.time_at.update(at, (window.time_at[at] + spent) as u128);
            let up_to = |k: int| total(times.take(k).map_values(|time: Nanos| time as int));
            &&& report.window == now - window.start
            &&& report.live_at_start == window.live_at_start
            &&& report.live_at_end == state.live
            &&& report.peak == window.peak
            &&& report.peak_bytes == window.peak_bytes
            &&& report.time_to_peak == window.time_to_peak
            &&& report.weighted == window.weighted + state.live * spent
            &&& up_to(report.p50 + 1) * 100 >= 50 * report.window
            &&& report.p50 > 0 ==> up_to(report.p50 as int) * 100 < 50 * report.window
            &&& up_to(report.p90 + 1) * 100 >= 90 * report.window
            &&& report.p90 > 0 ==> up_to(report.p90 as int) * 100 < 90 * report.window
            &&& up_to(report.p99 + 1) * 100 >= 99 * report.window
            &&& report.p99 > 0 ==> up_to(report.p99 as int) * 100 < 99 * report.window
        }),
{
    let window = state.window->0;
    let closed = window.weighed(state.live, now);
    let total_time = elapsed(window.start, now) as int;
    law_report_is_consistent(report, state, now);
    lemma_weighed_accounts(window, state.live, now);
    assert(0 <= state.live * elapsed(window.last_change, now)) by (nonlinear_arith);
    assert(time_below(closed.time_at, MAX_TRACKED + 1) == total_time);
    assert(covers(closed.time_at, 50, total_time, MAX_TRACKED as int));
    assert(covers(closed.time_at, 90, total_time, MAX_TRACKED as int));
    assert(covers(closed.time_at, 99, total_time, MAX_TRACKED as int));
    lemma_percentile_is_tight(closed.time_at, 50, total_time, report.p50 as int);
    lemma_percentile_is_tight(closed.time_at, 90, total_time, report.p90 as int);
    lemma_percentile_is_tight(closed.time_at, 99, total_time, report.p99 as int);
}

proof fn lemma_percentile_is_tight(times: Seq<Nanos>, percent: int, total_time: int, k: int)
    requires
        times.len() == BUCKETS,
        is_percentile(times, percent, total_time, k),
        covers(times, percent, total_time, MAX_TRACKED as int),
    ensures
        total(times.take(k + 1).map_values(|time: Nanos| time as int)) * 100 >= percent
            * total_time,
        k > 0 ==> total(times.take(k).map_values(|time: Nanos| time as int)) * 100 < percent
            * total_time,
{
    law_bucket_times_add_up(times, k + 1);
    law_bucket_times_add_up(times, k);
    if k > 0 {
        assert(!covers(times, percent, total_time, k - 1));
    }
}

/// Nothing is refused that can be counted: there is room for a change where its counts and, in an
/// open window, the times that it books can be held.
pub proof fn law_countable_changes_have_room(
    state: StateView,
    allocated: bool,
    size: usize,
    now: Nanos,
)
    requires
        state.wf(),
    ensures
        ({
            &&& allocated ==> state.live + 1 <= usize::MAX && state.live_bytes + size <= usize::MAX
            &&& state.window matches Some(window) ==> {
                let spent = greatest(now - window.last_change, 0);
                &&& window.time_at[least(state.live as int, MAX_TRACKED as int)] + spent <= MAX_NANOS
                &&& window.weighted + state.live * spent <= u128::MAX
            }
        }) <==> state.has_room(allocated, size, now),
{
}

/// A clock that went backwards books no time: the buckets and the weighed counts stay as they
/// were, and time goes on from there.
pub proof fn law_backward_clock_books_no_time(
    state: StateView,
    allocated: bool,
    size: usize,
    now: Nanos,
)
    requires
        state.wf(),
        state.has_room(allocated, size, now),
        state.window matches Some(window) && now <= window.last_change,
    ensures
        ({
            let before = state.window->0;
            state.changed(allocated, size, now).window matches Some(after) && {
                &&& after.time_at == before.time_at
                &&& after.weighted == before.weighted
                &&& after.last_change == now
            }
        }),
{
    let at = bucket(state.live);
    let before = state.window->0;
    assert(state.live * 0 == 0);
    assert(before.time_at.update(at, before.time_at[at]) =~= before.time_at);
}

} // verus!

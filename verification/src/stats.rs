//! Counters and timers of an artifact build.

use crate::arith::{greatest, lemma_total_grows, total};
use crate::columnar::{num_rows, partition_rows, PartitionBatch};
use crate::host_memory::RegisteredHostBuffer;
use vstd::prelude::*;

verus! {

/// A span of time in nanoseconds.
pub type Nanos = u128;

/// The longest span that `std::time::Duration` can hold; sums beyond it are never formed.
pub const MAX_NANOS: u128 = 18_446_744_073_709_551_615_999_999_999;

/// Whether `a + b` is still a span of time.
pub open spec fn spans_add(a: Nanos, b: Nanos) -> bool {
    a + b <= MAX_NANOS
}

/// Whether `a + b` is still a count.
pub open spec fn counts_add(a: usize, b: usize) -> bool {
    a + b <= usize::MAX
}

fn spans_fit(a: Nanos, b: Nanos) -> (fit: bool)
    ensures
        fit == spans_add(a, b),
{
    a <= MAX_NANOS && b <= MAX_NANOS - a
}

fn counts_fit(a: usize, b: usize) -> (fit: bool)
    ensures
        fit == counts_add(a, b),
{
    b <= usize::MAX - a
}

/// Tracks the first and the largest value of a per-batch timing beside its running sum, to
/// tell a one-time warm-up cost from one that recurs on every batch.
#[derive(Debug, Clone, Copy)]
pub struct FirstMaxTracker {
    pub first: Option<Nanos>,
    pub max: Nanos,
}

impl Default for FirstMaxTracker {
    fn default() -> (tracker: Self)
        ensures
            tracker == (FirstMaxTracker { first: None, max: 0 }),
    {
        FirstMaxTracker { first: None, max: 0 }
    }
}

impl FirstMaxTracker {
    /// The tracker after `value` has been seen.
    pub open spec fn seen(self, value: Nanos) -> FirstMaxTracker {
        FirstMaxTracker {
            first: if self.first is None {
                Some(value)
            } else {
                self.first
            },
            max: if value > self.max {
                value
            } else {
                self.max
            },
        }
    }

    pub fn record(&mut self, value: Nanos)
        ensures
            *final(self) == old(self).seen(value),
    {
        if self.first.is_none() {
            self.first = Some(value);
        }
        if value > self.max {
            self.max = value;
        }
    }

    /// The first value, or zero where none was seen.
    pub fn first_nanos(&self) -> (nanos: Nanos)
        ensures
            nanos == (match self.first {
                Some(first) => first,
                None => 0,
            }),
    {
        match self.first {
            Some(first) => first,
            None => 0,
        }
    }
}

/// The tracker after a whole sequence of values.
pub open spec fn tracker_of(values: Seq<Nanos>) -> FirstMaxTracker
    decreases values.len(),
{
    if values.len() == 0 {
        FirstMaxTracker { first: None, max: 0 }
    } else {
        tracker_of(values.drop_last()).seen(values.last())
    }
}

/// A tracker that has seen `values` holds the first of them, and a maximum that none exceeds
/// and one of them reaches.
pub proof fn law_tracker_holds_first_and_max(values: Seq<Nanos>)
    ensures
        values.len() == 0 ==> tracker_of(values) == (FirstMaxTracker { first: None, max: 0 }),
        values.len() > 0 ==> {
            &&& tracker_of(values).first == Some(values[0])
            &&& values.contains(tracker_of(values).max)
        },
        forall|i: int| 0 <= i < values.len() ==> #[trigger] values[i] <= tracker_of(values).max,
    decreases values.len(),
{
    if values.len() > 0 {
        let before = values.drop_last();
        law_tracker_holds_first_and_max(before);
        assert forall|i: int| 0 <= i < values.len() implies #[trigger] values[i] <= tracker_of(
            values,
        ).max by {
            if i < before.len() {
                assert(before[i] == values[i]);
            }
        }
        if values.last() > tracker_of(before).max || before.len() == 0 {
            assert(values[values.len() - 1] == tracker_of(values).max);
        } else {
            let i = choose|i: int| 0 <= i < before.len() && before[i] == tracker_of(before).max;
            assert(values[i] == tracker_of(values).max);
        }
    }
}

/// What one scanner task counted.
#[derive(Debug, Clone, Copy)]
pub struct ArtifactScannerStats {
    pub input_batches: usize,
    pub input_rows: usize,
    pub scan_wait: Nanos,
    pub scan_cpu: Nanos,
    pub send: Nanos,
}

impl Default for ArtifactScannerStats {
    fn default() -> (stats: Self)
        ensures
            stats == (ArtifactScannerStats {
                input_batches: 0,
                input_rows: 0,
                scan_wait: 0,
                scan_cpu: 0,
                send: 0,
            }),
    {
        ArtifactScannerStats { input_batches: 0, input_rows: 0, scan_wait: 0, scan_cpu: 0, send: 0 }
    }
}

impl ArtifactScannerStats {
    /// Adds one wait for the scan: its wall-clock time and the CPU time spent in it.
    pub fn record_wait(&mut self, wait: Nanos, cpu: Nanos)
        requires
            spans_add(old(self).scan_wait, wait),
            spans_add(old(self).scan_cpu, cpu),
        ensures
            *final(self) == (ArtifactScannerStats {
                scan_wait: (old(self).scan_wait + wait) as u128,
                scan_cpu: (old(self).scan_cpu + cpu) as u128,
                ..*old(self)
            }),
    {
        self.scan_wait = self.scan_wait + wait;
        self.scan_cpu = self.scan_cpu + cpu;
    }

    /// Counts one scanned batch.
    pub fn record_batch(&mut self, rows: usize)
        requires
            counts_add(old(self).input_batches, 1),
            counts_add(old(self).input_rows, rows),
        ensures
            *final(self) == (ArtifactScannerStats {
                input_batches: (old(self).input_batches + 1) as usize,
                input_rows: (old(self).input_rows + rows) as usize,
                ..*old(self)
            }),
    {
        self.input_batches = self.input_batches + 1;
        self.input_rows = self.input_rows + rows;
    }

    /// Adds the time that one batch took to be handed on.
    pub fn record_send(&mut self, send: Nanos)
        requires
            spans_add(old(self).send, send),
        ensures
            *final(self) == (ArtifactScannerStats {
                send: (old(self).send + send) as u128,
                ..*old(self)
            }),
    {
        self.send = self.send + send;
    }
}

/// What prepare workers counted.
#[derive(Debug, Clone, Copy)]
pub struct ArtifactPrepareStats {
    pub workers: usize,
    pub input_batches: usize,
    pub input_rows: usize,
    pub raw_wait: Nanos,
    pub send: Nanos,
    pub vector: Nanos,
    pub filter: Nanos,
    pub matrix: Nanos,
    pub register: Nanos,
    pub registered_bytes: usize,
    pub staging_wait: Nanos,
    pub staging_copy: Nanos,
    pub staged_bytes: usize,
    /// Batches that did not fit a staging slot and went to the GPU from pageable memory.
    pub staging_fallbacks: usize,
}

impl Default for ArtifactPrepareStats {
    fn default() -> (stats: Self)
        ensures
            stats == ArtifactPrepareStats::zero(),
            stats.workers == 0,
            stats.input_batches == 0,
            stats.input_rows == 0,
            stats.raw_wait == 0,
            stats.send == 0,
            stats.vector == 0,
            stats.filter == 0,
            stats.matrix == 0,
            stats.register == 0,
            stats.registered_bytes == 0,
            stats.staging_wait == 0,
            stats.staging_copy == 0,
            stats.staged_bytes == 0,
            stats.staging_fallbacks == 0,
    {
        ArtifactPrepareStats {
            workers: 0,
            input_batches: 0,
            input_rows: 0,
            raw_wait: 0,
            send: 0,
            vector: 0,
            filter: 0,
            matrix: 0,
            register: 0,
            registered_bytes: 0,
            staging_wait: 0,
            staging_copy: 0,
            staged_bytes: 0,
            staging_fallbacks: 0,
        }
    }
}

impl ArtifactPrepareStats {
    /// Nothing counted yet.
    pub open spec fn zero() -> ArtifactPrepareStats {
        ArtifactPrepareStats {
            workers: 0,
            input_batches: 0,
            input_rows: 0,
            raw_wait: 0,
            send: 0,
            vector: 0,
            filter: 0,
            matrix: 0,
            register: 0,
            registered_bytes: 0,
            staging_wait: 0,
            staging_copy: 0,
            staged_bytes: 0,
            staging_fallbacks: 0,
        }
    }

    /// The counters of a worker that has not seen a batch yet.
    pub fn worker() -> (stats: Self)
        ensures
            stats == (ArtifactPrepareStats { workers: 1, ..ArtifactPrepareStats::zero() }),
    {
        let mut stats = ArtifactPrepareStats::default();
        stats.workers = 1;
        stats
    }

    /// Whether what was counted for one batch can be added.
    pub open spec fn has_room_for(self, batch: ArtifactPrepareStats) -> bool {
        &&& counts_add(self.input_batches, batch.input_batches)
        &&& counts_add(self.input_rows, batch.input_rows)
        &&& spans_add(self.vector, batch.vector)
        &&& spans_add(self.filter, batch.filter)
        &&& spans_add(self.matrix, batch.matrix)
        &&& spans_add(self.register, batch.register)
        &&& counts_add(self.registered_bytes, batch.registered_bytes)
        &&& spans_add(self.staging_wait, batch.staging_wait)
        &&& spans_add(self.staging_copy, batch.staging_copy)
        &&& counts_add(self.staged_bytes, batch.staged_bytes)
        &&& counts_add(self.staging_fallbacks, batch.staging_fallbacks)
    }

    /// Whether what was counted for one batch can be added.
    pub fn can_merge_batch(&self, batch: &ArtifactPrepareStats) -> (can: bool)
        ensures
            can == self.has_room_for(*batch),
    {
        counts_fit(self.input_batches, batch.input_batches) && counts_fit(
            self.input_rows,
            batch.input_rows,
        ) && spans_fit(self.vector, batch.vector) && spans_fit(self.filter, batch.filter)
            && spans_fit(self.matrix, batch.matrix) && spans_fit(self.register, batch.register)
            && counts_fit(self.registered_bytes, batch.registered_bytes) && spans_fit(
            self.staging_wait,
            batch.staging_wait,
        ) && spans_fit(self.staging_copy, batch.staging_copy) && counts_fit(
            self.staged_bytes,
            batch.staged_bytes,
        ) && counts_fit(self.staging_fallbacks, batch.staging_fallbacks)
    }

    /// Counts a batch of `rows` rows.
    pub fn record_input(&mut self, rows: usize)
        requires
            counts_add(old(self).input_batches, 1),
            counts_add(old(self).input_rows, rows),
        ensures
            *final(self) == (ArtifactPrepareStats {
                input_batches: (old(self).input_batches + 1) as usize,
                input_rows: (old(self).input_rows + rows) as usize,
                ..*old(self)
            }),
    {
        self.input_batches = self.input_batches + 1;
        self.input_rows = self.input_rows + rows;
    }

    /// Counts a batch of `bytes` bytes that was copied into a staging slot.
    pub fn record_staged(&mut self, wait: Nanos, copy: Nanos, bytes: usize)
        requires
            spans_add(old(self).staging_wait, wait),
            spans_add(old(self).staging_copy, copy),
            counts_add(old(self).staged_bytes, bytes),
        ensures
            *final(self) == (ArtifactPrepareStats {
                staging_wait: (old(self).staging_wait + wait) as u128,
                staging_copy: (old(self).staging_copy + copy) as u128,
                staged_bytes: (old(self).staged_bytes + bytes) as usize,
                ..*old(self)
            }),
    {
        self.staging_wait = self.staging_wait + wait;
        self.staging_copy = self.staging_copy + copy;
        self.staged_bytes = self.staged_bytes + bytes;
    }

    /// Counts a batch that did not fit a staging slot.
    pub fn record_fallback(&mut self)
        requires
            counts_add(old(self).staging_fallbacks, 1),
        ensures
            *final(self) == (ArtifactPrepareStats {
                staging_fallbacks: (old(self).staging_fallbacks + 1) as usize,
                ..*old(self)
            }),
    {
        self.staging_fallbacks = self.staging_fallbacks + 1;
    }

    /// Counts an attempt to register a batch's pages. One that failed, or found no page to
    /// register, adds no bytes.
    pub fn record_registration(
        &mut self,
        register: Nanos,
        registration: &Option<RegisteredHostBuffer>,
    )
        requires
            spans_add(old(self).register, register),
            registration matches Some(buffer) ==> counts_add(
                old(self).registered_bytes,
                buffer.original_bytes,
            ),
        ensures
            *final(self) == (ArtifactPrepareStats {
                register: (old(self).register + register) as u128,
                registered_bytes: match registration {
                    Some(buffer) => (old(self).registered_bytes + buffer.original_bytes) as usize,
                    None => old(self).registered_bytes,
                },
                ..*old(self)
            }),
    {
        self.register = self.register + register;
        if let Some(buffer) = registration {
            self.registered_bytes = self.registered_bytes + buffer.original_bytes();
        }
    }

    /// A worker's counters with those of one batch added. The worker's own waiting and sending
    /// times are not part of a batch.
    pub open spec fn with_batch(self, batch: ArtifactPrepareStats) -> ArtifactPrepareStats {
        ArtifactPrepareStats {
            input_batches: (self.input_batches + batch.input_batches) as usize,
            input_rows: (self.input_rows + batch.input_rows) as usize,
            vector: (self.vector + batch.vector) as u128,
            filter: (self.filter + batch.filter) as u128,
            matrix: (self.matrix + batch.matrix) as u128,
            register: (self.register + batch.register) as u128,
            registered_bytes: (self.registered_bytes + batch.registered_bytes) as usize,
            staging_wait: (self.staging_wait + batch.staging_wait) as u128,
            staging_copy: (self.staging_copy + batch.staging_copy) as u128,
            staged_bytes: (self.staged_bytes + batch.staged_bytes) as usize,
            staging_fallbacks: (self.staging_fallbacks + batch.staging_fallbacks) as usize,
            ..self
        }
    }

    /// Adds what was counted for one batch.
    pub fn merge_batch(&mut self, batch: ArtifactPrepareStats)
        requires
            old(self).has_room_for(batch),
        ensures
            *final(self) == old(self).with_batch(batch),
    {
        self.input_batches = self.input_batches + batch.input_batches;
        self.input_rows = self.input_rows + batch.input_rows;
        self.vector = self.vector + batch.vector;
        self.filter = self.filter + batch.filter;
        self.matrix = self.matrix + batch.matrix;
        self.register = self.register + batch.register;
        self.registered_bytes = self.registered_bytes + batch.registered_bytes;
        self.staging_wait = self.staging_wait + batch.staging_wait;
        self.staging_copy = self.staging_copy + batch.staging_copy;
        self.staged_bytes = self.staged_bytes + batch.staged_bytes;
        self.staging_fallbacks = self.staging_fallbacks + batch.staging_fallbacks;
    }
}

/// CPU times of one launch.
#[derive(Debug, Clone, Copy)]
pub struct LaunchTimings {
    pub h2d_enqueue: Nanos,
    pub transform_call: Nanos,
    pub d2h_enqueue: Nanos,
}

impl Default for LaunchTimings {
    fn default() -> (timings: Self)
        ensures
            timings == (LaunchTimings { h2d_enqueue: 0, transform_call: 0, d2h_enqueue: 0 }),
    {
        LaunchTimings { h2d_enqueue: 0, transform_call: 0, d2h_enqueue: 0 }
    }
}

/// A batch taken back from the GPU, and what its way there and back took.
pub struct DrainedTransformBatch {
    pub batch: PartitionBatch,
    pub h2d: Nanos,
    pub transform: Nanos,
    pub d2h: Nanos,
    pub sync: Nanos,
    pub event_query: Nanos,
    pub release: Nanos,
    pub build_batch: Nanos,
}

/// What a whole artifact build counted.
#[derive(Debug, Clone, Copy)]
pub struct ArtifactBuildStats {
    pub scanner_tasks: usize,
    pub prepare_workers: usize,
    pub input_batches: usize,
    pub input_rows: usize,
    pub prepared_batches: usize,
    pub prepared_rows: usize,
    pub output_batches: usize,
    pub output_rows: usize,
    pub scan_wait: Nanos,
    pub scan_cpu: Nanos,
    pub raw_send: Nanos,
    pub raw_wait: Nanos,
    pub drain: Nanos,
    pub send: Nanos,
    pub prepare_send: Nanos,
    pub vector: Nanos,
    pub filter: Nanos,
    pub matrix: Nanos,
    pub launch: Nanos,
    pub gpu_h2d: Nanos,
    pub gpu_transform: Nanos,
    pub gpu_d2h: Nanos,
    pub gpu_h2d_first_max: FirstMaxTracker,
    pub gpu_transform_first_max: FirstMaxTracker,
    pub gpu_d2h_first_max: FirstMaxTracker,
    pub launch_h2d_enqueue: Nanos,
    pub launch_transform_call: Nanos,
    pub launch_d2h_enqueue: Nanos,
    pub launch_h2d_enqueue_first_max: FirstMaxTracker,
    pub launch_transform_call_first_max: FirstMaxTracker,
    pub launch_d2h_enqueue_first_max: FirstMaxTracker,
    pub drain_sync: Nanos,
    pub drain_event_query: Nanos,
    pub drain_release: Nanos,
    pub drain_build_batch: Nanos,
    pub register: Nanos,
    pub registered_bytes: usize,
    pub staging_slots: usize,
    pub staging_slot_bytes: usize,
    /// Background allocation time of all slots; `None` if it had not finished in time.
    pub staging_alloc: Option<Nanos>,
    pub staging_wait: Nanos,
    pub staging_copy: Nanos,
    pub staged_bytes: usize,
    pub staging_fallbacks: usize,
}

impl Default for ArtifactBuildStats {
    fn default() -> (stats: Self)
        ensures
            stats == ArtifactBuildStats::zero(),
            stats.scanner_tasks == 0,
            stats.prepare_workers == 0,
            stats.input_batches == 0,
            stats.input_rows == 0,
            stats.prepared_batches == 0,
            stats.prepared_rows == 0,
            stats.output_batches == 0,
            stats.output_rows == 0,
            stats.scan_wait == 0,
            stats.scan_cpu == 0,
            stats.raw_send == 0,
            stats.raw_wait == 0,
            stats.drain == 0,
            stats.send == 0,
            stats.prepare_send == 0,
            stats.vector == 0,
            stats.filter == 0,
            stats.matrix == 0,
            stats.launch == 0,
            stats.gpu_h2d == 0,
            stats.gpu_transform == 0,
            stats.gpu_d2h == 0,
            stats.gpu_h2d_first_max.first is None,
            stats.gpu_h2d_first_max.max == 0,
            stats.gpu_transform_first_max.first is None,
            stats.gpu_transform_first_max.max == 0,
            stats.gpu_d2h_first_max.first is None,
            stats.gpu_d2h_first_max.max == 0,
            stats.launch_h2d_enqueue == 0,
            stats.launch_transform_call == 0,
            stats.launch_d2h_enqueue == 0,
            stats.launch_h2d_enqueue_first_max.first is None,
            stats.launch_h2d_enqueue_first_max.max == 0,
            stats.launch_transform_call_first_max.first is None,
            stats.launch_transform_call_first_max.max == 0,
            stats.launch_d2h_enqueue_first_max.first is None,
            stats.launch_d2h_enqueue_first_max.max == 0,
            stats.drain_sync == 0,
            stats.drain_event_query == 0,
            stats.drain_release == 0,
            stats.drain_build_batch == 0,
            stats.register == 0,
            stats.registered_bytes == 0,
            stats.staging_slots == 0,
            stats.staging_slot_bytes == 0,
            stats.staging_alloc is None,
            stats.staging_wait == 0,
            stats.staging_copy == 0,
            stats.staged_bytes == 0,
            stats.staging_fallbacks == 0,
    {
        ArtifactBuildStats {
            scanner_tasks: 0,
            prepare_workers: 0,
            input_batches: 0,
            input_rows: 0,
            prepared_batches: 0,
            prepared_rows: 0,
            output_batches: 0,
            output_rows: 0,
            scan_wait: 0,
            scan_cpu: 0,
            raw_send: 0,
            raw_wait: 0,
            drain: 0,
            send: 0,
            prepare_send: 0,
            vector: 0,
            filter: 0,
            matrix: 0,
            launch: 0,
            gpu_h2d: 0,
            gpu_transform: 0,
            gpu_d2h: 0,
            gpu_h2d_first_max: FirstMaxTracker::default(),
            gpu_transform_first_max: FirstMaxTracker::default(),
            gpu_d2h_first_max: FirstMaxTracker::default(),
            launch_h2d_enqueue: 0,
            launch_transform_call: 0,
            launch_d2h_enqueue: 0,
            launch_h2d_enqueue_first_max: FirstMaxTracker::default(),
            launch_transform_call_first_max: FirstMaxTracker::default(),
            launch_d2h_enqueue_first_max: FirstMaxTracker::default(),
            drain_sync: 0,
            drain_event_query: 0,
            drain_release: 0,
            drain_build_batch: 0,
            register: 0,
            registered_bytes: 0,
            staging_slots: 0,
            staging_slot_bytes: 0,
            staging_alloc: None,
            staging_wait: 0,
            staging_copy: 0,
            staged_bytes: 0,
            staging_fallbacks: 0,
        }
    }
}

impl ArtifactBuildStats {
    /// Nothing counted yet.
    pub open spec fn zero() -> ArtifactBuildStats {
        ArtifactBuildStats {
            scanner_tasks: 0,
            prepare_workers: 0,
            input_batches: 0,
            input_rows: 0,
            prepared_batches: 0,
            prepared_rows: 0,
            output_batches: 0,
            output_rows: 0,
            scan_wait: 0,
            scan_cpu: 0,
            raw_send: 0,
            raw_wait: 0,
            drain: 0,
            send: 0,
            prepare_send: 0,
            vector: 0,
            filter: 0,
            matrix: 0,
            launch: 0,
            gpu_h2d: 0,
            gpu_transform: 0,
            gpu_d2h: 0,
            gpu_h2d_first_max: tracker_of(Seq::empty()),
            gpu_transform_first_max: tracker_of(Seq::empty()),
            gpu_d2h_first_max: tracker_of(Seq::empty()),
            launch_h2d_enqueue: 0,
            launch_transform_call: 0,
            launch_d2h_enqueue: 0,
            launch_h2d_enqueue_first_max: tracker_of(Seq::empty()),
            launch_transform_call_first_max: tracker_of(Seq::empty()),
            launch_d2h_enqueue_first_max: tracker_of(Seq::empty()),
            drain_sync: 0,
            drain_event_query: 0,
            drain_release: 0,
            drain_build_batch: 0,
            register: 0,
            registered_bytes: 0,
            staging_slots: 0,
            staging_slot_bytes: 0,
            staging_alloc: None,
            staging_wait: 0,
            staging_copy: 0,
            staged_bytes: 0,
            staging_fallbacks: 0,
        }
    }

    /// Whether a scanner task's counters can be added.
    pub open spec fn has_room_for_scanner(self, scanner: ArtifactScannerStats) -> bool {
        &&& counts_add(self.scanner_tasks, 1)
        &&& counts_add(self.input_batches, scanner.input_batches)
        &&& counts_add(self.input_rows, scanner.input_rows)
        &&& spans_add(self.scan_wait, scanner.scan_wait)
        &&& spans_add(self.scan_cpu, scanner.scan_cpu)
        &&& spans_add(self.raw_send, scanner.send)
    }

    /// Whether a scanner task's counters can be added.
    pub fn can_merge_scanner(&self, scanner: &ArtifactScannerStats) -> (can: bool)
        ensures
            can == self.has_room_for_scanner(*scanner),
    {
        counts_fit(self.scanner_tasks, 1) && counts_fit(self.input_batches, scanner.input_batches)
            && counts_fit(self.input_rows, scanner.input_rows) && spans_fit(
            self.scan_wait,
            scanner.scan_wait,
        ) && spans_fit(self.scan_cpu, scanner.scan_cpu) && spans_fit(self.raw_send, scanner.send)
    }

    /// The counters with those of one scanner task added.
    pub open spec fn with_scanner(self, scanner: ArtifactScannerStats) -> ArtifactBuildStats {
        ArtifactBuildStats {
            scanner_tasks: (self.scanner_tasks + 1) as usize,
            input_batches: (self.input_batches + scanner.input_batches) as usize,
            input_rows: (self.input_rows + scanner.input_rows) as usize,
            scan_wait: (self.scan_wait + scanner.scan_wait) as u128,
            scan_cpu: (self.scan_cpu + scanner.scan_cpu) as u128,
            raw_send: (self.raw_send + scanner.send) as u128,
            ..self
        }
    }

    pub fn merge_scanner(&mut self, scanner: ArtifactScannerStats)
        requires
            old(self).has_room_for_scanner(scanner),
        ensures
            *final(self) == old(self).with_scanner(scanner),
    {
        self.scanner_tasks = self.scanner_tasks + 1;
        self.input_batches = self.input_batches + scanner.input_batches;
        self.input_rows = self.input_rows + scanner.input_rows;
        self.scan_wait = self.scan_wait + scanner.scan_wait;
        self.scan_cpu = self.scan_cpu + scanner.scan_cpu;
        self.raw_send = self.raw_send + scanner.send;
    }

    /// Whether prepare workers' counters can be added.
    pub open spec fn has_room_for_prepare(self, prepare: ArtifactPrepareStats) -> bool {
        &&& counts_add(self.prepare_workers, prepare.workers)
        &&& counts_add(self.prepared_batches, prepare.input_batches)
        &&& counts_add(self.prepared_rows, prepare.input_rows)
        &&& spans_add(self.raw_wait, prepare.raw_wait)
        &&& spans_add(self.prepare_send, prepare.send)
        &&& spans_add(self.vector, prepare.vector)
        &&& spans_add(self.filter, prepare.filter)
        &&& spans_add(self.matrix, prepare.matrix)
        &&& spans_add(self.register, prepare.register)
        &&& counts_add(self.registered_bytes, prepare.registered_bytes)
        &&& spans_add(self.staging_wait, prepare.staging_wait)
        &&& spans_add(self.staging_copy, prepare.staging_copy)
        &&& counts_add(self.staged_bytes, prepare.staged_bytes)
        &&& counts_add(self.staging_fallbacks, prepare.staging_fallbacks)
    }

    /// Whether prepare workers' counters can be added.
    pub fn can_merge_prepare(&self, prepare: &ArtifactPrepareStats) -> (can: bool)
        ensures
            can == self.has_room_for_prepare(*prepare),
    {
        counts_fit(self.prepare_workers, prepare.workers) && counts_fit(
            self.prepared_batches,
            prepare.input_batches,
        ) && counts_fit(self.prepared_rows, prepare.input_rows) && spans_fit(
            self.raw_wait,
            prepare.raw_wait,
        ) && spans_fit(self.prepare_send, prepare.send) && spans_fit(self.vector, prepare.vector)
            && spans_fit(self.filter, prepare.filter) && spans_fit(self.matrix, prepare.matrix)
            && spans_fit(self.register, prepare.register) && counts_fit(
            self.registered_bytes,
            prepare.registered_bytes,
        ) && spans_fit(self.staging_wait, prepare.staging_wait) && spans_fit(
            self.staging_copy,
            prepare.staging_copy,
        ) && counts_fit(self.staged_bytes, prepare.staged_bytes) && counts_fit(
            self.staging_fallbacks,
            prepare.staging_fallbacks,
        )
    }

    /// The counters with those of prepare workers added.
    pub open spec fn with_prepare(self, prepare: ArtifactPrepareStats) -> ArtifactBuildStats {
        ArtifactBuildStats {
            prepare_workers: (self.prepare_workers + prepare.workers) as usize,
            prepared_batches: (self.prepared_batches + prepare.input_batches) as usize,
            prepared_rows: (self.prepared_rows + prepare.input_rows) as usize,
            raw_wait: (self.raw_wait + prepare.raw_wait) as u128,
            prepare_send: (self.prepare_send + prepare.send) as u128,
            vector: (self.vector + prepare.vector) as u128,
            filter: (self.filter + prepare.filter) as u128,
            matrix: (self.matrix + prepare.matrix) as u128,
            register: (self.register + prepare.register) as u128,
            registered_bytes: (self.registered_bytes + prepare.registered_bytes) as usize,
            staging_wait: (self.staging_wait + prepare.staging_wait) as u128,
            staging_copy: (self.staging_copy + prepare.staging_copy) as u128,
            staged_bytes: (self.staged_bytes + prepare.staged_bytes) as usize,
            staging_fallbacks: (self.staging_fallbacks + prepare.staging_fallbacks) as usize,
            ..self
        }
    }

    pub fn merge_prepare(&mut self, prepare: ArtifactPrepareStats)
        requires
            old(self).has_room_for_prepare(prepare),
        ensures
            *final(self) == old(self).with_prepare(prepare),
    {
        self.prepare_workers = self.prepare_workers + prepare.workers;
        self.prepared_batches = self.prepared_batches + prepare.input_batches;
        self.prepared_rows = self.prepared_rows + prepare.input_rows;
        self.raw_wait = self.raw_wait + prepare.raw_wait;
        self.prepare_send = self.prepare_send + prepare.send;
        self.vector = self.vector + prepare.vector;
        self.filter = self.filter + prepare.filter;
        self.matrix = self.matrix + prepare.matrix;
        self.register = self.register + prepare.register;
        self.registered_bytes = self.registered_bytes + prepare.registered_bytes;
        self.staging_wait = self.staging_wait + prepare.staging_wait;
        self.staging_copy = self.staging_copy + prepare.staging_copy;
        self.staged_bytes = self.staged_bytes + prepare.staged_bytes;
        self.staging_fallbacks = self.staging_fallbacks + prepare.staging_fallbacks;
    }

    /// The counters with one output batch of `rows` rows added.
    pub open spec fn with_output(self, rows: int) -> ArtifactBuildStats {
        ArtifactBuildStats {
            output_batches: (self.output_batches + 1) as usize,
            output_rows: (self.output_rows + rows) as usize,
            ..self
        }
    }

    /// Counts one output batch.
    pub fn record_output(&mut self, batch: &PartitionBatch)
        requires
            counts_add(old(self).output_batches, 1),
            old(self).output_rows + partition_rows(*batch).len() <= usize::MAX,
        ensures
            *final(self) == old(self).with_output(
                partition_rows(*batch).len() as int,
            ),
    {
        self.output_batches = self.output_batches + 1;
        self.output_rows = self.output_rows + num_rows(batch);
    }

    /// Whether a drained batch can be counted.
    pub open spec fn has_room_for_drained(self, drained: DrainedTransformBatch) -> bool {
        &&& counts_add(self.output_batches, 1)
        &&& self.output_rows + partition_rows(drained.batch).len() <= usize::MAX
        &&& spans_add(self.gpu_h2d, drained.h2d)
        &&& spans_add(self.gpu_transform, drained.transform)
        &&& spans_add(self.gpu_d2h, drained.d2h)
        &&& spans_add(self.drain_sync, drained.sync)
        &&& spans_add(self.drain_event_query, drained.event_query)
        &&& spans_add(self.drain_release, drained.release)
        &&& spans_add(self.drain_build_batch, drained.build_batch)
    }

    /// Whether a drained batch can be counted.
    pub fn can_record_drained(&self, drained: &DrainedTransformBatch) -> (can: bool)
        ensures
            can == self.has_room_for_drained(*drained),
    {
        counts_fit(self.output_batches, 1) && counts_fit(
            self.output_rows,
            num_rows(&drained.batch),
        ) && spans_fit(self.gpu_h2d, drained.h2d) && spans_fit(
            self.gpu_transform,
            drained.transform,
        ) && spans_fit(self.gpu_d2h, drained.d2h) && spans_fit(self.drain_sync, drained.sync)
            && spans_fit(self.drain_event_query, drained.event_query) && spans_fit(
            self.drain_release,
            drained.release,
        ) && spans_fit(self.drain_build_batch, drained.build_batch)
    }

    /// The counters with those of one drained batch added.
    pub open spec fn with_drained(self, drained: DrainedTransformBatch) -> ArtifactBuildStats {
        let counted = self.with_output(
            partition_rows(drained.batch).len() as int,
        );
        ArtifactBuildStats {
            gpu_h2d: (self.gpu_h2d + drained.h2d) as u128,
            gpu_transform: (self.gpu_transform + drained.transform) as u128,
            gpu_d2h: (self.gpu_d2h + drained.d2h) as u128,
            gpu_h2d_first_max: self.gpu_h2d_first_max.seen(drained.h2d),
            gpu_transform_first_max: self.gpu_transform_first_max.seen(drained.transform),
            gpu_d2h_first_max: self.gpu_d2h_first_max.seen(drained.d2h),
            drain_sync: (self.drain_sync + drained.sync) as u128,
            drain_event_query: (self.drain_event_query + drained.event_query) as u128,
            drain_release: (self.drain_release + drained.release) as u128,
            drain_build_batch: (self.drain_build_batch + drained.build_batch) as u128,
            ..counted
        }
    }

    /// Counts one drained batch and its timings.
    pub fn record_drained(&mut self, drained: &DrainedTransformBatch)
        requires
            old(self).has_room_for_drained(*drained),
        ensures
            *final(self) == old(self).with_drained(*drained),
    {
        self.record_output(&drained.batch);
        self.gpu_h2d = self.gpu_h2d + drained.h2d;
        self.gpu_transform = self.gpu_transform + drained.transform;
        self.gpu_d2h = self.gpu_d2h + drained.d2h;
        self.gpu_h2d_first_max.record(drained.h2d);
        self.gpu_transform_first_max.record(drained.transform);
        self.gpu_d2h_first_max.record(drained.d2h);
        self.drain_sync = self.drain_sync + drained.sync;
        self.drain_event_query = self.drain_event_query + drained.event_query;
        self.drain_release = self.drain_release + drained.release;
        self.drain_build_batch = self.drain_build_batch + drained.build_batch;
    }

    /// Whether a launch's timings can be added.
    pub open spec fn has_room_for_launch(self, timings: LaunchTimings) -> bool {
        &&& spans_add(self.launch_h2d_enqueue, timings.h2d_enqueue)
        &&& spans_add(self.launch_transform_call, timings.transform_call)
        &&& spans_add(self.launch_d2h_enqueue, timings.d2h_enqueue)
    }

    /// Whether a launch's timings can be added.
    pub fn can_record_launch(&self, timings: &LaunchTimings) -> (can: bool)
        ensures
            can == self.has_room_for_launch(*timings),
    {
        spans_fit(self.launch_h2d_enqueue, timings.h2d_enqueue) && spans_fit(
            self.launch_transform_call,
            timings.transform_call,
        ) && spans_fit(self.launch_d2h_enqueue, timings.d2h_enqueue)
    }

    /// The counters with a launch's timings added.
    pub open spec fn with_launch(self, timings: LaunchTimings) -> ArtifactBuildStats {
        ArtifactBuildStats {
            launch_h2d_enqueue: (self.launch_h2d_enqueue + timings.h2d_enqueue) as u128,
            launch_transform_call: (self.launch_transform_call + timings.transform_call) as u128,
            launch_d2h_enqueue: (self.launch_d2h_enqueue + timings.d2h_enqueue) as u128,
            launch_h2d_enqueue_first_max: self.launch_h2d_enqueue_first_max.seen(
                timings.h2d_enqueue,
            ),
            launch_transform_call_first_max: self.launch_transform_call_first_max.seen(
                timings.transform_call,
            ),
            launch_d2h_enqueue_first_max: self.launch_d2h_enqueue_first_max.seen(
                timings.d2h_enqueue,
            ),
            ..self
        }
    }

    pub fn record_launch_timings(&mut self, timings: LaunchTimings)
        requires
            old(self).has_room_for_launch(timings),
        ensures
            *final(self) == old(self).with_launch(timings),
    {
        self.launch_h2d_enqueue = self.launch_h2d_enqueue + timings.h2d_enqueue;
        self.launch_transform_call = self.launch_transform_call + timings.transform_call;
        self.launch_d2h_enqueue = self.launch_d2h_enqueue + timings.d2h_enqueue;
        self.launch_h2d_enqueue_first_max.record(timings.h2d_enqueue);
        self.launch_transform_call_first_max.record(timings.transform_call);
        self.launch_d2h_enqueue_first_max.record(timings.d2h_enqueue);
    }
}

/// The totals of two workers do not depend on which of them is merged first.
pub proof fn law_prepare_merges_commute(
    stats: ArtifactBuildStats,
    one: ArtifactPrepareStats,
    other: ArtifactPrepareStats,
)
    requires
        stats.has_room_for_prepare(one),
        stats.with_prepare(one).has_room_for_prepare(other),
    ensures
        stats.has_room_for_prepare(other),
        stats.with_prepare(other).has_room_for_prepare(one),
        stats.with_prepare(one).with_prepare(other) == stats.with_prepare(other).with_prepare(one),
{
}

/// A worker's totals do not depend on the order of its batches.
pub proof fn law_batch_merges_commute(
    stats: ArtifactPrepareStats,
    one: ArtifactPrepareStats,
    other: ArtifactPrepareStats,
)
    requires
        stats.has_room_for(one),
        stats.with_batch(one).has_room_for(other),
    ensures
        stats.has_room_for(other),
        stats.with_batch(other).has_room_for(one),
        stats.with_batch(one).with_batch(other) == stats.with_batch(other).with_batch(one),
{
}

/// The CPU time between two readings of a thread's clock, zero where it went backwards.
pub open spec fn poll_time(before: Nanos, after: Nanos) -> Nanos {
    if after > before {
        (after - before) as u128
    } else {
        0
    }
}

/// Wraps a future to add up the CPU time spent in advancing it. Each poll runs on one thread
/// from start to end, so per-poll differences of a thread's CPU clock add up to the right
/// total even when the task moves between threads.
#[derive(Debug)]
pub struct CpuTimedFuture<F> {
    pub inner: F,
    pub cpu_time: Nanos,
}

impl<F> CpuTimedFuture<F> {
    pub fn new(inner: F) -> (future: Self)
        ensures
            future.inner == inner,
            future.cpu_time == 0,
    {
        CpuTimedFuture { inner, cpu_time: 0 }
    }

    /// The future after one poll, given the thread's clock before and after it.
    pub open spec fn polled(self, before: Nanos, after: Nanos) -> Self {
        CpuTimedFuture {
            cpu_time: (self.cpu_time + poll_time(before, after)) as u128,
            ..self
        }
    }

    /// Adds the CPU time of one poll, given the thread's clock before and after it. A clock
    /// that went backwards counts as no time at all.
    pub fn record_poll(&mut self, before: Nanos, after: Nanos)
        requires
            spans_add(old(self).cpu_time, poll_time(before, after)),
        ensures
            *final(self) == old(self).polled(before, after),
    {
        self.cpu_time = self.cpu_time + after.saturating_sub(before);
    }
}

/// The CPU time of `polls`, of each the thread's clock before and after it, added up.
pub open spec fn polls_time(polls: Seq<(Nanos, Nanos)>) -> int
    decreases polls.len(),
{
    if polls.len() == 0 {
        0
    } else {
        polls_time(polls.drop_last()) + poll_time(polls.last().0, polls.last().1)
    }
}

/// A future after `polls`.
pub open spec fn polled_through<F>(future: CpuTimedFuture<F>, polls: Seq<(Nanos, Nanos)>) -> CpuTimedFuture<
    F,
>
    decreases polls.len(),
{
    if polls.len() == 0 {
        future
    } else {
        polled_through(future, polls.drop_last()).polled(polls.last().0, polls.last().1)
    }
}

/// However often a future is polled, and on whichever threads, the CPU time is that of all its
/// polls together, and each of them can be added.
pub proof fn law_polls_add_up<F>(future: CpuTimedFuture<F>, polls: Seq<(Nanos, Nanos)>)
    requires
        future.cpu_time + polls_time(polls) <= MAX_NANOS,
    ensures
        polled_through(future, polls).cpu_time == future.cpu_time + polls_time(polls),
        polled_through(future, polls).inner == future.inner,
        polls.len() > 0 ==> spans_add(
            polled_through(future, polls.drop_last()).cpu_time,
            poll_time(polls.last().0, polls.last().1),
        ),
    decreases polls.len(),
{
    if polls.len() > 0 {
        law_polls_add_up(future, polls.drop_last());
    }
}

/// A batch adds each of its counters and times to the same one of its worker, and touches
/// neither the worker's own waiting and sending times nor the number of workers.
pub proof fn law_batch_adds_its_own_counters(
    stats: ArtifactPrepareStats,
    batch: ArtifactPrepareStats,
)
    requires
        stats.has_room_for(batch),
    ensures
        ({
            let after = stats.with_batch(batch);
            &&& after.workers == stats.workers
            &&& after.input_batches == stats.input_batches + batch.input_batches
            &&& after.input_rows == stats.input_rows + batch.input_rows
            &&& after.raw_wait == stats.raw_wait
            &&& after.send == stats.send
            &&& after.vector == stats.vector + batch.vector
            &&& after.filter == stats.filter + batch.filter
            &&& after.matrix == stats.matrix + batch.matrix
            &&& after.register == stats.register + batch.register
            &&& after.registered_bytes == stats.registered_bytes + batch.registered_bytes
            &&& after.staging_wait == stats.staging_wait + batch.staging_wait
            &&& after.staging_copy == stats.staging_copy + batch.staging_copy
            &&& after.staged_bytes == stats.staged_bytes + batch.staged_bytes
            &&& after.staging_fallbacks == stats.staging_fallbacks + batch.staging_fallbacks
        }),
{
}

/// A scanner task adds itself, what it scanned and what that took, and nothing else.
pub proof fn law_scanner_adds_its_own_counters(
    stats: ArtifactBuildStats,
    scanner: ArtifactScannerStats,
)
    requires
        stats.has_room_for_scanner(scanner),
    ensures
        ({
            let after = stats.with_scanner(scanner);
            &&& after.scanner_tasks == stats.scanner_tasks + 1
            &&& after.prepare_workers == stats.prepare_workers
            &&& after.input_batches == stats.input_batches + scanner.input_batches
            &&& after.input_rows == stats.input_rows + scanner.input_rows
            &&& after.prepared_batches == stats.prepared_batches
            &&& after.prepared_rows == stats.prepared_rows
            &&& after.output_batches == stats.output_batches
            &&& after.output_rows == stats.output_rows
            &&& after.scan_wait == stats.scan_wait + scanner.scan_wait
            &&& after.scan_cpu == stats.scan_cpu + scanner.scan_cpu
            &&& after.raw_send == stats.raw_send + scanner.send
            &&& after.raw_wait == stats.raw_wait
            &&& after.drain == stats.drain
            &&& after.send == stats.send
            &&& after.prepare_send == stats.prepare_send
            &&& after.vector == stats.vector
            &&& after.filter == stats.filter
            &&& after.matrix == stats.matrix
            &&& after.launch == stats.launch
            &&& after.gpu_h2d == stats.gpu_h2d
            &&& after.gpu_transform == stats.gpu_transform
            &&& after.gpu_d2h == stats.gpu_d2h
            &&& after.gpu_h2d_first_max == stats.gpu_h2d_first_max
            &&& after.gpu_transform_first_max == stats.gpu_transform_first_max
            &&& after.gpu_d2h_first_max == stats.gpu_d2h_first_max
            &&& after.launch_h2d_enqueue == stats.launch_h2d_enqueue
            &&& after.launch_transform_call == stats.launch_transform_call
            &&& after.launch_d2h_enqueue == stats.launch_d2h_enqueue
            &&& after.launch_h2d_enqueue_first_max == stats.launch_h2d_enqueue_first_max
            &&& after.launch_transform_call_first_max == stats.launch_transform_call_first_max
            &&& after.launch_d2h_enqueue_first_max == stats.launch_d2h_enqueue_first_max
            &&& after.drain_sync == stats.drain_sync
            &&& after.drain_event_query == stats.drain_event_query
            &&& after.drain_release == stats.drain_release
            &&& after.drain_build_batch == stats.drain_build_batch
            &&& after.register == stats.register
            &&& after.registered_bytes == stats.registered_bytes
            &&& after.staging_slots == stats.staging_slots
            &&& after.staging_slot_bytes == stats.staging_slot_bytes
            &&& after.staging_alloc == stats.staging_alloc
            &&& after.staging_wait == stats.staging_wait
            &&& after.staging_copy == stats.staging_copy
            &&& after.staged_bytes == stats.staged_bytes
            &&& after.staging_fallbacks == stats.staging_fallbacks
        }),
{
}

/// A prepare worker adds itself, what it prepared and what that took, and nothing else.
pub proof fn law_worker_adds_its_own_counters(
    stats: ArtifactBuildStats,
    prepare: ArtifactPrepareStats,
)
    requires
        stats.has_room_for_prepare(prepare),
    ensures
        ({
            let after = stats.with_prepare(prepare);
            &&& after.scanner_tasks == stats.scanner_tasks
            &&& after.prepare_workers == stats.prepare_workers + prepare.workers
            &&& after.input_batches == stats.input_batches
            &&& after.input_rows == stats.input_rows
            &&& after.prepared_batches == stats.prepared_batches + prepare.input_batches
            &&& after.prepared_rows == stats.prepared_rows + prepare.input_rows
            &&& after.output_batches == stats.output_batches
            &&& after.output_rows == stats.output_rows
            &&& after.scan_wait == stats.scan_wait
            &&& after.scan_cpu == stats.scan_cpu
            &&& after.raw_send == stats.raw_send
            &&& after.raw_wait == stats.raw_wait + prepare.raw_wait
            &&& after.drain == stats.drain
            &&& after.send == stats.send
            &&& after.prepare_send == stats.prepare_send + prepare.send
            &&& after.vector == stats.vector + prepare.vector
            &&& after.filter == stats.filter + prepare.filter
            &&& after.matrix == stats.matrix + prepare.matrix
            &&& after.launch == stats.launch
            &&& after.gpu_h2d == stats.gpu_h2d
            &&& after.gpu_transform == stats.gpu_transform
            &&& after.gpu_d2h == stats.gpu_d2h
            &&& after.gpu_h2d_first_max == stats.gpu_h2d_first_max
            &&& after.gpu_transform_first_max == stats.gpu_transform_first_max
            &&& after.gpu_d2h_first_max == stats.gpu_d2h_first_max
            &&& after.launch_h2d_enqueue == stats.launch_h2d_enqueue
            &&& after.launch_transform_call == stats.launch_transform_call
            &&& after.launch_d2h_enqueue == stats.launch_d2h_enqueue
            &&& after.launch_h2d_enqueue_first_max == stats.launch_h2d_enqueue_first_max
            &&& after.launch_transform_call_first_max == stats.launch_transform_call_first_max
            &&& after.launch_d2h_enqueue_first_max == stats.launch_d2h_enqueue_first_max
            &&& after.drain_sync == stats.drain_sync
            &&& after.drain_event_query == stats.drain_event_query
            &&& after.drain_release == stats.drain_release
            &&& after.drain_build_batch == stats.drain_build_batch
            &&& after.register == stats.register + prepare.register
            &&& after.registered_bytes == stats.registered_bytes + prepare.registered_bytes
            &&& after.staging_slots == stats.staging_slots
            &&& after.staging_slot_bytes == stats.staging_slot_bytes
            &&& after.staging_alloc == stats.staging_alloc
            &&& after.staging_wait == stats.staging_wait + prepare.staging_wait
            &&& after.staging_copy == stats.staging_copy + prepare.staging_copy
            &&& after.staged_bytes == stats.staged_bytes + prepare.staged_bytes
            &&& after.staging_fallbacks == stats.staging_fallbacks + prepare.staging_fallbacks
        }),
{
}

/// A drained batch adds itself, its rows and its times, each to its own total and to its own
/// first and longest, and nothing else. `h2d`, `transform` and `d2h` are the times that were
/// seen before.
pub proof fn law_drained_batch_adds_its_own_counters(
    stats: ArtifactBuildStats,
    drained: DrainedTransformBatch,
    h2d: Seq<Nanos>,
    transform: Seq<Nanos>,
    d2h: Seq<Nanos>,
)
    requires
        stats.has_room_for_drained(drained),
        stats.gpu_h2d_first_max == tracker_of(h2d),
        stats.gpu_transform_first_max == tracker_of(transform),
        stats.gpu_d2h_first_max == tracker_of(d2h),
    ensures
        ({
            let after = stats.with_drained(drained);
            &&& after.scanner_tasks == stats.scanner_tasks
            &&& after.prepare_workers == stats.prepare_workers
            &&& after.input_batches == stats.input_batches
            &&& after.input_rows == stats.input_rows
            &&& after.prepared_batches == stats.prepared_batches
            &&& after.prepared_rows == stats.prepared_rows
            &&& after.output_batches == stats.output_batches + 1
            &&& after.output_rows == stats.output_rows + partition_rows(drained.batch).len()
            &&& after.scan_wait == stats.scan_wait
            &&& after.scan_cpu == stats.scan_cpu
            &&& after.raw_send == stats.raw_send
            &&& after.raw_wait == stats.raw_wait
            &&& after.drain == stats.drain
            &&& after.send == stats.send
            &&& after.prepare_send == stats.prepare_send
            &&& after.vector == stats.vector
            &&& after.filter == stats.filter
            &&& after.matrix == stats.matrix
            &&& after.launch == stats.launch
            &&& after.gpu_h2d == stats.gpu_h2d + drained.h2d
            &&& after.gpu_transform == stats.gpu_transform + drained.transform
            &&& after.gpu_d2h == stats.gpu_d2h + drained.d2h
            &&& after.gpu_h2d_first_max == tracker_of(h2d.push(drained.h2d))
            &&& after.gpu_transform_first_max == tracker_of(transform.push(drained.transform))
            &&& after.gpu_d2h_first_max == tracker_of(d2h.push(drained.d2h))
            &&& after.launch_h2d_enqueue == stats.launch_h2d_enqueue
            &&& after.launch_transform_call == stats.launch_transform_call
            &&& after.launch_d2h_enqueue == stats.launch_d2h_enqueue
            &&& after.launch_h2d_enqueue_first_max == stats.launch_h2d_enqueue_first_max
            &&& after.launch_transform_call_first_max == stats.launch_transform_call_first_max
            &&& after.launch_d2h_enqueue_first_max == stats.launch_d2h_enqueue_first_max
            &&& after.drain_sync == stats.drain_sync + drained.sync
            &&& after.drain_event_query == stats.drain_event_query + drained.event_query
            &&& after.drain_release == stats.drain_release + drained.release
            &&& after.drain_build_batch == stats.drain_build_batch + drained.build_batch
            &&& after.register == stats.register
            &&& after.registered_bytes == stats.registered_bytes
            &&& after.staging_slots == stats.staging_slots
            &&& after.staging_slot_bytes == stats.staging_slot_bytes
            &&& after.staging_alloc == stats.staging_alloc
            &&& after.staging_wait == stats.staging_wait
            &&& after.staging_copy == stats.staging_copy
            &&& after.staged_bytes == stats.staged_bytes
            &&& after.staging_fallbacks == stats.staging_fallbacks
        }),
{
    assert(h2d.push(drained.h2d).drop_last() =~= h2d);
    assert(transform.push(drained.transform).drop_last() =~= transform);
    assert(d2h.push(drained.d2h).drop_last() =~= d2h);
}

/// A launch adds its times, each to its own total and to its own first and longest, and nothing
/// else. `h2d_enqueue`, `transform_call` and `d2h_enqueue` are the times that were seen before.
pub proof fn law_launch_adds_its_own_times(
    stats: ArtifactBuildStats,
    timings: LaunchTimings,
    h2d_enqueue: Seq<Nanos>,
    transform_call: Seq<Nanos>,
    d2h_enqueue: Seq<Nanos>,
)
    requires
        stats.has_room_for_launch(timings),
        stats.launch_h2d_enqueue_first_max == tracker_of(h2d_enqueue),
        stats.launch_transform_call_first_max == tracker_of(transform_call),
        stats.launch_d2h_enqueue_first_max == tracker_of(d2h_enqueue),
    ensures
        ({
            let after = stats.with_launch(timings);
            &&& after.scanner_tasks == stats.scanner_tasks
            &&& after.prepare_workers == stats.prepare_workers
            &&& after.input_batches == stats.input_batches
            &&& after.input_rows == stats.input_rows
            &&& after.prepared_batches == stats.prepared_batches
            &&& after.prepared_rows == stats.prepared_rows
            &&& after.output_batches == stats.output_batches
            &&& after.output_rows == stats.output_rows
            &&& after.scan_wait == stats.scan_wait
            &&& after.scan_cpu == stats.scan_cpu
            &&& after.raw_send == stats.raw_send
            &&& after.raw_wait == stats.raw_wait
            &&& after.drain == stats.drain
            &&& after.send == stats.send
            &&& after.prepare_send == stats.prepare_send
            &&& after.vector == stats.vector
            &&& after.filter == stats.filter
            &&& after.matrix == stats.matrix
            &&& after.launch == stats.launch
            &&& after.gpu_h2d == stats.gpu_h2d
            &&& after.gpu_transform == stats.gpu_transform
            &&& after.gpu_d2h == stats.gpu_d2h
            &&& after.gpu_h2d_first_max == stats.gpu_h2d_first_max
            &&& after.gpu_transform_first_max == stats.gpu_transform_first_max
            &&& after.gpu_d2h_first_max == stats.gpu_d2h_first_max
            &&& after.launch_h2d_enqueue == stats.launch_h2d_enqueue + timings.h2d_enqueue
            &&& after.launch_transform_call == stats.launch_transform_call + timings.transform_call
            &&& after.launch_d2h_enqueue == stats.launch_d2h_enqueue + timings.d2h_enqueue
            &&& after.launch_h2d_enqueue_first_max == tracker_of(h2d_enqueue.push(timings.h2d_enqueue))
            &&& after.launch_transform_call_first_max == tracker_of(transform_call.push(timings.transform_call))
            &&& after.launch_d2h_enqueue_first_max == tracker_of(d2h_enqueue.push(timings.d2h_enqueue))
            &&& after.drain_sync == stats.drain_sync
            &&& after.drain_event_query == stats.drain_event_query
            &&& after.drain_release == stats.drain_release
            &&& after.drain_build_batch == stats.drain_build_batch
            &&& after.register == stats.register
            &&& after.registered_bytes == stats.registered_bytes
            &&& after.staging_slots == stats.staging_slots
            &&& after.staging_slot_bytes == stats.staging_slot_bytes
            &&& after.staging_alloc == stats.staging_alloc
            &&& after.staging_wait == stats.staging_wait
            &&& after.staging_copy == stats.staging_copy
            &&& after.staged_bytes == stats.staged_bytes
            &&& after.staging_fallbacks == stats.staging_fallbacks
        }),
{
    assert(h2d_enqueue.push(timings.h2d_enqueue).drop_last() =~= h2d_enqueue);
    assert(transform_call.push(timings.transform_call).drop_last() =~= transform_call);
    assert(d2h_enqueue.push(timings.d2h_enqueue).drop_last() =~= d2h_enqueue);
}

/// The CPU time of polls is the sum of how far the clock went forward in each.
pub proof fn law_poll_times_add_up(polls: Seq<(Nanos, Nanos)>)
    ensures
        polls_time(polls) == total(
            polls.map_values(|poll: (Nanos, Nanos)| greatest(poll.1 - poll.0, 0)),
        ),
    decreases polls.len(),
{
    let times = polls.map_values(|poll: (Nanos, Nanos)| greatest(poll.1 - poll.0, 0));
    if polls.len() == 0 {
        assert(times =~= Seq::empty());
        lemma_total_grows(times, 0);
    } else {
        let before = polls.drop_last();
        law_poll_times_add_up(before);
        let times_before = before.map_values(
            |poll: (Nanos, Nanos)| greatest(poll.1 - poll.0, 0),
        );
        let last = polls.last();
        lemma_total_grows(times_before, greatest(last.1 - last.0, 0));
        assert(times =~= times_before.push(greatest(last.1 - last.0, 0)));
    }
}

/// Nothing is refused that can be counted: where no counter would go beyond what it can hold, and
/// no time beyond the longest span, there is room.
pub proof fn law_nothing_countable_is_refused(
    worker: ArtifactPrepareStats,
    batch: ArtifactPrepareStats,
    stats: ArtifactBuildStats,
    scanner: ArtifactScannerStats,
    drained: DrainedTransformBatch,
    timings: LaunchTimings,
)
    ensures
        ({
            &&& worker.input_batches + batch.input_batches <= usize::MAX
            &&& worker.input_rows + batch.input_rows <= usize::MAX
            &&& worker.vector + batch.vector <= MAX_NANOS
            &&& worker.filter + batch.filter <= MAX_NANOS
            &&& worker.matrix + batch.matrix <= MAX_NANOS
            &&& worker.register + batch.register <= MAX_NANOS
            &&& worker.registered_bytes + batch.registered_bytes <= usize::MAX
            &&& worker.staging_wait + batch.staging_wait <= MAX_NANOS
            &&& worker.staging_copy + batch.staging_copy <= MAX_NANOS
            &&& worker.staged_bytes + batch.staged_bytes <= usize::MAX
            &&& worker.staging_fallbacks + batch.staging_fallbacks <= usize::MAX
        }) <==> worker.has_room_for(batch),
        ({
            &&& stats.scanner_tasks + 1 <= usize::MAX
            &&& stats.input_batches + scanner.input_batches <= usize::MAX
            &&& stats.input_rows + scanner.input_rows <= usize::MAX
            &&& stats.scan_wait + scanner.scan_wait <= MAX_NANOS
            &&& stats.scan_cpu + scanner.scan_cpu <= MAX_NANOS
            &&& stats.raw_send + scanner.send <= MAX_NANOS
        }) <==> stats.has_room_for_scanner(scanner),
        ({
            &&& stats.prepare_workers + batch.workers <= usize::MAX
            &&& stats.prepared_batches + batch.input_batches <= usize::MAX
            &&& stats.prepared_rows + batch.input_rows <= usize::MAX
            &&& stats.raw_wait + batch.raw_wait <= MAX_NANOS
            &&& stats.prepare_send + batch.send <= MAX_NANOS
            &&& stats.vector + batch.vector <= MAX_NANOS
            &&& stats.filter + batch.filter <= MAX_NANOS
            &&& stats.matrix + batch.matrix <= MAX_NANOS
            &&& stats.register + batch.register <= MAX_NANOS
            &&& stats.registered_bytes + batch.registered_bytes <= usize::MAX
            &&& stats.staging_wait + batch.staging_wait <= MAX_NANOS
            &&& stats.staging_copy + batch.staging_copy <= MAX_NANOS
            &&& stats.staged_bytes + batch.staged_bytes <= usize::MAX
            &&& stats.staging_fallbacks + batch.staging_fallbacks <= usize::MAX
        }) <==> stats.has_room_for_prepare(batch),
        ({
            &&& stats.output_batches + 1 <= usize::MAX
            &&& stats.output_rows + partition_rows(drained.batch).len() <= usize::MAX
            &&& stats.gpu_h2d + drained.h2d <= MAX_NANOS
            &&& stats.gpu_transform + drained.transform <= MAX_NANOS
            &&& stats.gpu_d2h + drained.d2h <= MAX_NANOS
            &&& stats.drain_sync + drained.sync <= MAX_NANOS
            &&& stats.drain_event_query + drained.event_query <= MAX_NANOS
            &&& stats.drain_release + drained.release <= MAX_NANOS
            &&& stats.drain_build_batch + drained.build_batch <= MAX_NANOS
        }) <==> stats.has_room_for_drained(drained),
        ({
            &&& stats.launch_h2d_enqueue + timings.h2d_enqueue <= MAX_NANOS
            &&& stats.launch_transform_call + timings.transform_call <= MAX_NANOS
            &&& stats.launch_d2h_enqueue + timings.d2h_enqueue <= MAX_NANOS
        }) <==> stats.has_room_for_launch(timings),
{
}

} // verus!

//! Debug instrumentation of the global allocator: which allocations are logged, and how each
//! allocator call moves the gauge of large allocations.

use crate::large_alloc_gauge::{on_alloc, on_dealloc, State, MIN_BYTES};
use crate::stats::Nanos;
use crate::text::{
    contains_text, has_text, law_text_is_found_where_it_stands, parse_usize, parsed_usize,
    same_text,
};
use vstd::prelude::*;
use vstd::string::StringExecFns;

verus! {

/// Allocations below this are not logged unless the environment says otherwise.
pub const DEFAULT_TRACE_MIN_BYTES: usize = 2 * 1024 * 1024;

/// What a line of the process's memory map names where it belongs to the native module.
pub const NATIVE_MODULE: &'static str = "_native.abi3.so";

/// What stands for the memory map where it cannot be read.
pub const NO_MAPS: &'static str = "<failed to read /proc/self/maps>";

/// Whether `LANCE_CUVS_ALLOC_TRACE`, as read from the environment, switches the log on: `1`
/// does, and nothing else.
pub fn enabled(value: Option<&str>) -> (on: bool)
    ensures
        on == (value matches Some(text) && text@ == "1"@),
{
    match value {
        Some(text) => same_text(text, "1"),
        None => false,
    }
}

/// The smallest allocation to log: `LANCE_CUVS_ALLOC_TRACE_MIN_BYTES`, where it is a number.
pub fn min_bytes(value: Option<&str>) -> (bytes: usize)
    ensures
        bytes == match value {
            Some(text) => match parsed_usize(text@) {
                Some(bytes) => bytes,
                None => DEFAULT_TRACE_MIN_BYTES,
            },
            None => DEFAULT_TRACE_MIN_BYTES,
        },
        value is None ==> bytes == 2 * 1024 * 1024,
{
    match value {
        Some(text) => match parse_usize(text) {
            Some(bytes) => bytes,
            None => DEFAULT_TRACE_MIN_BYTES,
        },
        None => DEFAULT_TRACE_MIN_BYTES,
    }
}

/// The texts of `lines` that contain `needle`, in order.
pub open spec fn lines_with(lines: Seq<String>, needle: Seq<char>) -> Seq<Seq<char>>
    decreases lines.len(),
{
    if lines.len() == 0 {
        Seq::empty()
    } else if has_text(lines.last()@, needle) {
        lines_with(lines.drop_last(), needle).push(lines.last()@)
    } else {
        lines_with(lines.drop_last(), needle)
    }
}

/// `parts` with a line break between any two of them.
pub open spec fn joined_lines(parts: Seq<Seq<char>>) -> Seq<char>
    decreases parts.len(),
{
    if parts.len() == 0 {
        Seq::empty()
    } else if parts.len() == 1 {
        parts[0]
    } else {
        joined_lines(parts.drop_last()) + "\n"@ + parts.last()
    }
}

/// The lines of the memory map that belong to the native module, so that the log holds all
/// that is needed to resolve addresses later. `None` stands for a map that cannot be read.
pub fn maps_line(lines: Option<&Vec<String>>) -> (maps: String)
    ensures
        maps@ == match lines {
            Some(lines) => joined_lines(lines_with(lines@, NATIVE_MODULE@)),
            None => NO_MAPS@,
        },
{
    let lines = match lines {
        Some(lines) => lines,
        None => {
            return NO_MAPS.to_owned();
        },
    };
    let mut maps = String::new();
    let mut found: usize = 0;
    let mut i: usize = 0;
    while i < lines.len()
        invariant
            i <= lines@.len(),
            found <= i,
            found == lines_with(lines@.take(i as int), NATIVE_MODULE@).len(),
            maps@ == joined_lines(lines_with(lines@.take(i as int), NATIVE_MODULE@)),
        decreases lines@.len() - i,
    {
        let ghost before = lines_with(lines@.take(i as int), NATIVE_MODULE@);
        assert(lines@.take(i + 1).drop_last() =~= lines@.take(i as int));
        if contains_text(lines[i].as_str(), NATIVE_MODULE) {
            let ghost parts = before.push(lines@[i as int]@);
            assert(parts.drop_last() =~= before);
            if found > 0 {
                maps.append("\n");
            }
            maps.append(lines[i].as_str());
            assert(maps@ =~= joined_lines(parts));
            found = found + 1;
        }
        i = i + 1;
    }
    assert(lines@.take(i as int) =~= lines@);
    maps
}

/// Keeps the logger from logging its own allocations: one per thread.
#[derive(Debug)]
pub struct LogGuard {
    in_logger: bool,
}

impl LogGuard {
    /// Whether the thread is logging at the moment.
    pub closed spec fn held(&self) -> bool {
        self.in_logger
    }

    pub fn new() -> (guard: LogGuard)
        ensures
            !guard.held(),
    {
        LogGuard { in_logger: false }
    }

    /// Decides whether an allocation of `size` bytes is logged, and holds the guard if so.
    pub fn enter(&mut self, on: bool, least_bytes: usize, size: usize) -> (log: bool)
        ensures
            log == (on && size >= least_bytes && !old(self).held()),
            final(self).held() == (old(self).held() || log),
    {
        if !on || size < least_bytes || self.in_logger {
            return false;
        }
        self.in_logger = true;
        true
    }

    /// Releases the guard after an allocation was logged.
    pub fn leave(&mut self)
        requires
            old(self).held(),
        ensures
            !final(self).held(),
    {
        self.in_logger = false;
    }
}

/// The number of the next log entry. The counter starts over after its last number.
pub fn next_entry(counter: &mut u64) -> (entry: u64)
    ensures
        entry == *old(counter),
        *final(counter) == if *old(counter) == u64::MAX {
            0
        } else {
            *old(counter) + 1
        },
{
    let entry: u64 = *counter;
    *counter = entry.wrapping_add(1);
    entry
}

/// The tracing allocator's view of the gauge. Each method is told what the system allocator
/// did, and returns whether the gauge could count it; it cannot only where a counter or a
/// timer is full.
#[derive(Debug, Clone, Copy)]
pub struct AllocTracer;

impl AllocTracer {
    /// A call that allocates: only one that succeeded counts.
    pub fn count_alloc(&self, state: &mut State, succeeded: bool, size: usize, now: Nanos) -> (counted:
        bool)
        requires
            old(state)@.wf(),
        ensures
            final(state)@.wf(),
            counted == (!succeeded || size < MIN_BYTES || old(state)@.has_room(true, size, now)),
            final(state)@ == if counted && succeeded && size >= MIN_BYTES {
                old(state)@.changed(true, size, now)
            } else {
                old(state)@
            },
    {
        if !succeeded || size < MIN_BYTES {
            return true;
        }
        if !state.has_room(true, size, now) {
            return false;
        }
        on_alloc(state, size, now);
        true
    }

    /// A call that allocates zeroed memory counts like any other.
    pub fn count_alloc_zeroed(&self, state: &mut State, succeeded: bool, size: usize, now: Nanos) -> (
    counted: bool)
        requires
            old(state)@.wf(),
        ensures
            final(state)@.wf(),
            counted == (!succeeded || size < MIN_BYTES || old(state)@.has_room(true, size, now)),
            final(state)@ == if counted && succeeded && size >= MIN_BYTES {
                old(state)@.changed(true, size, now)
            } else {
                old(state)@
            },
    {
        self.count_alloc(state, succeeded, size, now)
    }

    /// A call that frees.
    pub fn count_dealloc(&self, state: &mut State, size: usize, now: Nanos) -> (counted: bool)
        requires
            old(state)@.wf(),
        ensures
            final(state)@.wf(),
            counted == (size < MIN_BYTES || old(state)@.has_room(false, size, now)),
            final(state)@ == if counted && size >= MIN_BYTES {
                old(state)@.changed(false, size, now)
            } else {
                old(state)@
            },
    {
        if size < MIN_BYTES {
            return true;
        }
        if !state.has_room(false, size, now) {
            return false;
        }
        on_dealloc(state, size, now);
        true
    }

    /// A call that resizes: where it succeeded, the old allocation is gone and the new one is
    /// there; where it failed, the old one is untouched.
    pub fn count_realloc(
        &self,
        state: &mut State,
        succeeded: bool,
        old_size: usize,
        new_size: usize,
        now: Nanos,
    ) -> (counted: bool)
        requires
            old(state)@.wf(),
        ensures
            final(state)@.wf(),
            ({
                let freed = if old_size >= MIN_BYTES {
                    old(state)@.changed(false, old_size, now)
                } else {
                    old(state)@
                };
                let free_fits = old_size < MIN_BYTES || old(state)@.has_room(false, old_size, now);
                let alloc_fits = new_size < MIN_BYTES || freed.has_room(true, new_size, now);
                &&& counted == (!succeeded || (free_fits && alloc_fits))
                &&& final(state)@ == if !succeeded || !free_fits {
                    old(state)@
                } else if !alloc_fits || new_size < MIN_BYTES {
                    freed
                } else {
                    freed.changed(true, new_size, now)
                }
            }),
    {
        if !succeeded {
            return true;
        }
        if !self.count_dealloc(state, old_size, now) {
            return false;
        }
        self.count_alloc(state, true, new_size, now)
    }
}

/// The kept lines are those that hold `needle` somewhere, all of them and in their order.
pub proof fn law_kept_lines_are_those_with_the_text(lines: Seq<String>, needle: Seq<char>)
    ensures
        lines_with(lines, needle) == lines.filter(
            |line: String|
                exists|before: Seq<char>, after: Seq<char>|
                    line@ == #[trigger] (before + needle + after),
        ).map_values(|line: String| line@),
    decreases lines.len(),
{
    reveal(Seq::filter);
    if lines.len() > 0 {
        law_kept_lines_are_those_with_the_text(lines.drop_last(), needle);
        law_text_is_found_where_it_stands(lines.last()@, needle);
    }
}

/// Joining puts a line break between lines and nowhere else: one line is itself, no line is
/// nothing, and two runs of lines are joined by joining each and putting a break between.
pub proof fn law_lines_join_at_any_place(parts: Seq<Seq<char>>, rest: Seq<Seq<char>>)
    ensures
        joined_lines(Seq::empty()) == Seq::<char>::empty(),
        parts.len() == 1 ==> joined_lines(parts) == parts[0],
        parts.len() > 0 && rest.len() > 0 ==> joined_lines(parts + rest) == joined_lines(parts)
            + "\n"@ + joined_lines(rest),
    decreases rest.len(),
{
    if parts.len() > 0 && rest.len() > 0 {
        let all = parts + rest;
        let before = rest.drop_last();
        assert(all.drop_last() =~= parts + before);
        assert(all.last() == rest.last());
        if before.len() == 0 {
            assert(parts + before =~= parts);
        } else {
            law_lines_join_at_any_place(parts, before);
            assert(joined_lines(all) =~= joined_lines(parts) + "\n"@ + joined_lines(rest));
        }
    }
}

} // verus!

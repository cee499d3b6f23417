//! Pinned staging slots: a fixed set of page-locked buffers that batches pass through on
//! their way to the GPU, and who holds which of them.

use crate::arith::least;
use crate::error::BackendError;
use crate::host_memory::{
    check_prefix, chunk_len, has_every_part, law_shared_copy_copies_everything, parts_copied,
};
use crate::settings::{pinned_staging_slots_from_env, positive_or, PIPELINE_SLOTS};
use vstd::prelude::*;

verus! {

/// The fewest slots with which the pipeline cannot block itself. A transform's slot is given
/// back only when the next prepared batch arrives; while one is waited for, at most
/// [`PIPELINE_SLOTS`] slots are held by transforms, so one more is always there for a batch
/// that is being prepared.
pub const MIN_STAGING_SLOTS: usize = 3;

/// The slots of a pool, by number: which are free, in the order in which they came back.
#[derive(Debug)]
pub struct PinnedStagingPool {
    free: Vec<usize>,
    slots: usize,
    slot_len: usize,
}

impl View for PinnedStagingPool {
    type V = Seq<usize>;

    closed spec fn view(&self) -> Seq<usize> {
        self.free@
    }
}

impl PinnedStagingPool {
    pub closed spec fn spec_slots(&self) -> usize {
        self.slots
    }

    pub closed spec fn spec_slot_len(&self) -> usize {
        self.slot_len
    }

    /// Free slots are slots of the pool, and none is free twice.
    pub open spec fn wf(&self) -> bool {
        &&& self@.no_duplicates()
        &&& forall|i: int| 0 <= i < self@.len() ==> #[trigger] self@[i] < self.spec_slots()
    }

    /// The slots that are held by someone.
    pub open spec fn held(&self) -> Set<usize> {
        Set::new(|slot: usize| slot < self.spec_slots() && !self@.contains(slot))
    }

    /// A pool of `slots` slots of `slot_len` elements each, all of them free.
    pub fn try_new(slots: usize, slot_len: usize) -> (pool: PinnedStagingPool)
        ensures
            pool.wf(),
            pool.spec_slots() == slots,
            pool.spec_slot_len() == slot_len,
            pool@ == Seq::new(slots as nat, |i: int| i as usize),
            pool.held() == Set::<usize>::empty(),
    {
        let mut free: Vec<usize> = Vec::new();
        let mut i: usize = 0;
        while i < slots
            invariant
                i <= slots,
                free@.len() == i,
                forall|k: int| 0 <= k < i ==> #[trigger] free@[k] == k,
            decreases slots - i,
        {
            free.push(i);
            i = i + 1;
        }
        let pool = PinnedStagingPool { free, slots, slot_len };
        proof {
            assert(pool@ =~= Seq::new(slots as nat, |k: int| k as usize));
            assert forall|slot: usize| !pool.held().contains(slot) by {
                if slot < slots {
                    assert(pool@[slot as int] == slot);
                }
            }
            assert(pool.held() =~= Set::<usize>::empty());
        }
        pool
    }

    /// The elements that each slot holds.
    pub fn slot_len(&self) -> (len: usize)
        ensures
            len == self.spec_slot_len(),
    {
        self.slot_len
    }

    /// Takes the slot that came back last; `None` where every slot is held, and the caller has
    /// to wait for one to come back.
    pub fn acquire(&mut self) -> (slot: Option<usize>)
        requires
            old(self).wf(),
        ensures
            final(self).wf(),
            final(self).spec_slots() == old(self).spec_slots(),
            final(self).spec_slot_len() == old(self).spec_slot_len(),
            match slot {
                Some(slot) => {
                    &&& old(self)@.len() > 0
                    &&& slot == old(self)@.last()
                    &&& final(self)@ == old(self)@.drop_last()
                    &&& slot < old(self).spec_slots()
                    &&& !old(self).held().contains(slot)
                    &&& final(self).held() == old(self).held().insert(slot)
                },
                None => {
                    &&& old(self)@.len() == 0
                    &&& final(self)@ == old(self)@
                },
            },
    {
        let ghost before = *self;
        let slot = self.free.pop();
        proof {
            if let Some(slot) = slot {
                assert(before@[before@.len() - 1] == slot);
                assert forall|other: usize|
                    self.held().contains(other) == before.held().insert(slot).contains(other) by {
                    if before@.contains(other) && other != slot {
                        let i = choose|i: int| 0 <= i < before@.len() && before@[i] == other;
                        assert(self@[i] == other);
                    }
                    if self@.contains(other) {
                        let i = choose|i: int| 0 <= i < self@.len() && self@[i] == other;
                        assert(before@[i] == other);
                        assert(before@[before@.len() - 1] == slot);
                    }
                }
                assert(self.held() =~= before.held().insert(slot));
            } else {
                assert(self@ =~= before@);
            }
        }
        slot
    }

    /// Gives a held slot back.
    pub fn release(&mut self, slot: usize)
        requires
            old(self).wf(),
            old(self).held().contains(slot),
        ensures
            final(self).wf(),
            final(self).spec_slots() == old(self).spec_slots(),
            final(self).spec_slot_len() == old(self).spec_slot_len(),
            final(self)@ == old(self)@.push(slot),
            final(self).held() == old(self).held().remove(slot),
    {
        let ghost before = *self;
        self.free.push(slot);
        proof {
            assert forall|other: usize|
                self.held().contains(other) == before.held().remove(slot).contains(other) by {
                if before@.contains(other) {
                    let i = choose|i: int| 0 <= i < before@.len() && before@[i] == other;
                    assert(self@[i] == other);
                }
                if self@.contains(other) && other != slot {
                    let i = choose|i: int| 0 <= i < self@.len() && self@[i] == other;
                    assert(before@[i] == other);
                }
                assert(self@[before@.len() as int] == slot);
            }
            assert(self.held() =~= before.held().remove(slot));
        }
    }
}

/// Every slot of a pool is either free or held: there are always as many of both together as
/// the pool has.
pub proof fn law_slots_are_free_or_held(pool: PinnedStagingPool)
    requires
        pool.wf(),
    ensures
        pool.held().finite(),
        pool@.len() + pool.held().len() == pool.spec_slots(),
{
    let slots = pool.spec_slots();
    let all = Set::new(|slot: usize| slot < slots);
    lemma_slot_numbers(slots);
    let free = pool@.to_set();
    pool@.unique_seq_to_set();
    assert(pool.held() =~= all.difference(free));
    assert(free.subset_of(all)) by {
        assert forall|slot: usize| free.contains(slot) implies all.contains(slot) by {
            let i = choose|i: int| 0 <= i < pool@.len() && pool@[i] == slot;
            assert(pool@[i] < slots);
        }
    }
    vstd::set_lib::lemma_set_difference_len(all, free);
    assert(all.intersect(free) =~= free);
}

proof fn lemma_slot_numbers(slots: usize)
    ensures
        Set::new(|slot: usize| slot < slots).finite(),
        Set::new(|slot: usize| slot < slots).len() == slots,
    decreases slots,
{
    let all = Set::new(|slot: usize| slot < slots);
    if slots == 0 {
        assert(all =~= Set::empty());
    } else {
        let below = (slots - 1) as usize;
        let rest = Set::new(|slot: usize| slot < below);
        lemma_slot_numbers(below);
        assert(all =~= rest.insert(below));
    }
}

/// A pool with more slots than transforms can hold always has one for a batch that is being
/// prepared: a worker that waits for a slot while no other worker holds one gets it.
pub proof fn law_preparing_never_blocks_for_good(pool: PinnedStagingPool)
    requires
        pool.wf(),
        pool.spec_slots() >= MIN_STAGING_SLOTS,
        pool.held().len() <= PIPELINE_SLOTS,
    ensures
        pool@.len() > 0,
{
    law_slots_are_free_or_held(pool);
}

/// A slot that a batch holds, and how much of it is filled.
#[derive(Debug)]
pub struct PinnedStagingSlot {
    slot: Option<usize>,
    len: usize,
}

impl PinnedStagingSlot {
    /// The number of the slot, until it was given back.
    pub closed spec fn spec_slot(&self) -> Option<usize> {
        self.slot
    }

    /// The elements that were filled in.
    pub closed spec fn spec_len(&self) -> usize {
        self.len
    }

    /// What was filled in, where `memory` is what the slot's memory holds.
    pub open spec fn filled(&self, memory: Seq<u32>) -> Seq<u32> {
        memory.take(self.spec_len() as int)
    }

    /// A slot that was just acquired and holds nothing.
    pub fn new(slot: usize) -> (held: PinnedStagingSlot)
        ensures
            held.spec_slot() == Some(slot),
            held.spec_len() == 0,
    {
        PinnedStagingSlot { slot: Some(slot), len: 0 }
    }

    /// Notes that `len` elements are to be copied to the start of the slot, which has room for
    /// `slot_len`, and says which slot that is.
    pub fn fill_from(&mut self, len: usize, slot_len: usize) -> (slot: Result<usize, BackendError>)
        ensures
            final(self).spec_slot() == old(self).spec_slot(),
            match slot {
                Ok(slot) => {
                    &&& old(self).spec_slot() == Some(slot)
                    &&& len <= slot_len
                    &&& final(self).spec_len() == len
                },
                Err(BackendError::StagingReleased) => {
                    &&& old(self).spec_slot() is None
                    &&& final(self).spec_len() == old(self).spec_len()
                },
                Err(BackendError::PinnedPrefix { len: l, wanted }) => {
                    &&& old(self).spec_slot() is Some
                    &&& len > slot_len
                    &&& l == slot_len
                    &&& wanted == len
                    &&& final(self).spec_len() == old(self).spec_len()
                },
                Err(_) => false,
            },
    {
        let slot: usize = match self.slot {
            Some(slot) => slot,
            None => {
                return Err(BackendError::StagingReleased);
            },
        };
        check_prefix(slot_len, len)?;
        self.len = len;
        Ok(slot)
    }

    /// The slot and how much of it is filled.
    pub fn as_slice(&self) -> (filled: Result<(usize, usize), BackendError>)
        ensures
            match filled {
                Ok((slot, len)) => self.spec_slot() == Some(slot) && len == self.spec_len(),
                Err(BackendError::StagingReleased) => self.spec_slot() is None,
                Err(_) => false,
            },
    {
        match self.slot {
            Some(slot) => Ok((slot, self.len)),
            None => Err(BackendError::StagingReleased),
        }
    }

    /// Lets go of the slot, once nothing reads from it any more. It can be let go of once.
    pub fn take(&mut self) -> (slot: Option<usize>)
        ensures
            slot == old(self).spec_slot(),
            final(self).spec_slot() is None,
            final(self).spec_len() == old(self).spec_len(),
    {
        self.slot.take()
    }
}

/// A slot gives back what was filled in, whatever its memory held before, and however many
/// threads shared the copy and in whichever order they were done. `held` is the slot after
/// [`PinnedStagingSlot::fill_from`] noted as many elements as `words` has.
pub proof fn law_slot_gives_back_what_was_filled_in(
    held: PinnedStagingSlot,
    memory: Seq<u32>,
    words: Seq<u32>,
    threads: int,
    order: Seq<int>,
)
    requires
        held.spec_len() == words.len(),
        words.len() <= memory.len(),
        has_every_part(order, words.len() as int, chunk_len(words.len() as int, 4, threads)),
    ensures
        held.filled(
            parts_copied(memory, words, chunk_len(words.len() as int, 4, threads), order),
        ) == words,
{
    law_shared_copy_copies_everything(memory, words, threads, order);
}

/// The largest of `rows`, or `None` where one is missing.
pub open spec fn largest_rows(rows: Seq<Option<usize>>) -> Option<usize>
    decreases rows.len(),
{
    if rows.len() == 0 {
        Some(0)
    } else {
        match (largest_rows(rows.drop_last()), rows.last()) {
            (Some(max), Some(count)) => Some(
                if count > max {
                    count
                } else {
                    max
                },
            ),
            _ => None,
        }
    }
}

/// The largest of `rows`, and no more than `batch_size`; `batch_size` where it is not known
/// or zero.
pub open spec fn slot_rows(rows: Seq<Option<usize>>, batch_size: usize) -> usize {
    match largest_rows(rows) {
        Some(max) if 0 < max && max < batch_size => max,
        _ => batch_size,
    }
}

/// The rows that a slot has to hold: the largest fragment's, for a scanned batch never spans
/// fragments, and no more than `batch_size`. Where a fragment's row count is missing, or
/// there are no rows at all, it is `batch_size`.
pub fn staging_slot_rows(physical_rows: &Vec<Option<usize>>, batch_size: usize) -> (rows: usize)
    ensures
        rows == slot_rows(physical_rows@, batch_size),
{
    let mut max: usize = 0;
    let mut i: usize = 0;
    while i < physical_rows.len()
        invariant
            i <= physical_rows@.len(),
            largest_rows(physical_rows@.take(i as int)) == Some(max),
        decreases physical_rows@.len() - i,
    {
        assert(physical_rows@.take(i + 1).drop_last() =~= physical_rows@.take(i as int));
        match physical_rows[i] {
            Some(count) => {
                if count > max {
                    max = count;
                }
            },
            None => {
                proof {
                    lemma_missing_rows(physical_rows@, i as int);
                }
                return batch_size;
            },
        }
        i = i + 1;
    }
    assert(physical_rows@.take(i as int) =~= physical_rows@);
    if 0 < max && max < batch_size {
        max
    } else {
        batch_size
    }
}

proof fn lemma_missing_rows(rows: Seq<Option<usize>>, index: int)
    requires
        0 <= index < rows.len(),
        rows[index] is None,
    ensures
        largest_rows(rows) is None,
    decreases rows.len(),
{
    if index < rows.len() - 1 {
        lemma_missing_rows(rows.drop_last(), index);
    }
}

/// A slot holds any batch of one fragment that the scan can bring: the rows of every fragment,
/// up to `batch_size`.
pub proof fn law_slots_hold_every_fragment(
    physical_rows: Seq<Option<usize>>,
    batch_size: usize,
    index: int,
)
    requires
        0 <= index < physical_rows.len(),
    ensures
        slot_rows(physical_rows, batch_size) <= batch_size,
        physical_rows[index] matches Some(count) ==> least(count as int, batch_size as int)
            <= slot_rows(physical_rows, batch_size),
{
    lemma_largest_rows(physical_rows, index);
}

proof fn lemma_largest_rows(rows: Seq<Option<usize>>, index: int)
    requires
        0 <= index < rows.len(),
    ensures
        largest_rows(rows) matches Some(max) ==> (rows[index] matches Some(count) && count <= max),
    decreases rows.len(),
{
    if index < rows.len() - 1 {
        lemma_largest_rows(rows.drop_last(), index);
    }
}

/// The slots and the size of each that a build stages with.
#[derive(Debug, Clone, Copy)]
pub struct StagingPlan {
    pub slots: usize,
    /// The slots that were asked for; fewer than `slots` where that was too few.
    pub requested: usize,
    /// Elements of a slot.
    pub slot_len: usize,
    /// Bytes of a slot.
    pub slot_bytes: usize,
}

/// Plans the staging slots of a build: as many as the environment asks for, or one for each
/// worker beside those in flight, and never too few to go on.
pub fn plan_staging(
    slots_value: Option<&str>,
    prepare_workers: usize,
    slot_rows: usize,
    dimension: usize,
) -> (plan: StagingPlan)
    requires
        prepare_workers + PIPELINE_SLOTS <= usize::MAX,
        slot_rows * dimension * 4 <= usize::MAX,
    ensures
        plan.requested == positive_or(slots_value, (prepare_workers + PIPELINE_SLOTS) as usize),
        plan.slots == if plan.requested < MIN_STAGING_SLOTS {
            MIN_STAGING_SLOTS
        } else {
            plan.requested
        },
        plan.slots >= 3,
        plan.requested >= 3 ==> plan.slots == plan.requested,
        plan.slot_len == slot_rows * dimension,
        plan.slot_bytes == slot_rows * dimension * 4,
{
    let requested: usize = pinned_staging_slots_from_env(
        slots_value,
        prepare_workers + PIPELINE_SLOTS,
    );
    let slots: usize = if requested < MIN_STAGING_SLOTS {
        MIN_STAGING_SLOTS
    } else {
        requested
    };
    assert(0 <= slot_rows * dimension) by (nonlinear_arith);
    let slot_len: usize = slot_rows * dimension;
    StagingPlan { slots, requested, slot_len, slot_bytes: slot_len * 4 }
}

/// A slot holds as many rows as the largest fragment has, where every fragment's rows are known,
/// some fragment has any, and they are fewer than a batch has; and otherwise as many as a batch.
pub proof fn law_slots_are_no_larger_than_needed(
    physical_rows: Seq<Option<usize>>,
    batch_size: usize,
)
    ensures
        ({
            let rows = slot_rows(physical_rows, batch_size);
            if exists|i: int| 0 <= i < physical_rows.len() && #[trigger] physical_rows[i] is None {
                rows == batch_size
            } else if exists|i: int|
                0 <= i < physical_rows.len() && (#[trigger] physical_rows[i])->0 >= batch_size {
                rows == batch_size
            } else if exists|i: int|
                0 <= i < physical_rows.len() && (#[trigger] physical_rows[i])->0 > 0 {
                &&& exists|i: int|
                    0 <= i < physical_rows.len() && #[trigger] physical_rows[i] == Some(rows)
                &&& forall|i: int|
                    0 <= i < physical_rows.len() ==> (#[trigger] physical_rows[i])->0 <= rows
            } else {
                rows == batch_size
            }
        }),
{
    if exists|i: int| 0 <= i < physical_rows.len() && #[trigger] physical_rows[i] is None {
        let i = choose|i: int| 0 <= i < physical_rows.len() && #[trigger] physical_rows[i] is None;
        lemma_missing_rows(physical_rows, i);
    } else {
        lemma_largest_is_reached(physical_rows);
        assert forall|i: int| 0 <= i < physical_rows.len() implies (#[trigger] physical_rows[i])->0
            <= largest_rows(physical_rows)->0 by {
            lemma_largest_rows(physical_rows, i);
        }
    }
}

proof fn lemma_largest_is_reached(rows: Seq<Option<usize>>)
    requires
        forall|i: int| 0 <= i < rows.len() ==> #[trigger] rows[i] is Some,
    ensures
        largest_rows(rows) matches Some(max) && (max == 0 || exists|i: int|
            0 <= i < rows.len() && #[trigger] rows[i] == Some(max)),
    decreases rows.len(),
{
    if rows.len() > 0 {
        let before = rows.drop_last();
        assert(rows[rows.len() - 1] is Some);
        assert forall|i: int| 0 <= i < before.len() implies #[trigger] before[i] is Some by {
            assert(before[i] == rows[i]);
        }
        lemma_largest_is_reached(before);
        let max = largest_rows(before)->0;
        if largest_rows(rows) == Some(max) && max != 0 && rows.last() != Some(max) {
            let i = choose|i: int| 0 <= i < before.len() && #[trigger] before[i] == Some(max);
            assert(rows[i] == Some(max));
        } else {
            assert(rows[rows.len() - 1] == rows.last());
        }
    }
}

} // verus!

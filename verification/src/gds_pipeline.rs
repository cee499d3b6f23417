//! The direct-read pipeline: fragments are read straight into device memory while earlier ones
//! are transformed.
//!
//! The pipeline is driven from outside. Each [`GdsPipeline::step`] is told how the last action
//! went and says what to do next; reads run in the background, everything else one at a time.

use crate::settings::GDS_PIPELINE_SLOTS;
use vstd::prelude::*;

verus! {

/// What to do next. A fragment is named by its number, and so is the batch that its transform
/// brings.
#[allow(inconsistent_fields)]
#[derive(Debug, Clone, Copy, PartialEq, Eq, Structural)]
pub enum GdsAction {
    /// Wait for the fragment's background task, which finds its reads and starts them.
    AwaitPrefetch { fragment: usize, slot: usize },
    /// Find the fragment's reads and start them: nothing was started in the background.
    ResolveInline { fragment: usize, slot: usize },
    /// Wait for the fragment's reads to land in the slot.
    AwaitReads { fragment: usize, slot: usize },
    /// Take the batch out of the slot, if there is one.
    Drain { slot: usize, batch: Option<usize> },
    /// Transform the fragment in the slot.
    Launch { fragment: usize, slot: usize },
    /// Start the fragment's background task, which reads into the slot.
    SpawnPrefetch { fragment: usize, slot: usize },
    /// Hand the batch that was drained to the artifact writer.
    Send { batch: usize },
    /// Stop the background task of the slot, or wait until it is done.
    Join { fragment: usize, slot: usize },
    /// All fragments are done, and no background task is left.
    Finish,
    /// Something failed, and no background task is left.
    Fail,
}

/// How the last action went.
#[derive(Debug, Clone, Copy, PartialEq, Eq, Structural)]
pub enum GdsEvent {
    /// The fragment's reads are started; or there is nothing to read, for it has no rows.
    Prefetched { has_rows: bool },
    /// Any other action is done.
    Done,
    Failed,
}

/// Where the pipeline is.
#[derive(Debug, Clone, Copy, PartialEq, Eq, Structural)]
pub enum GdsPhase {
    Prefetch,
    Reads,
    Drain,
    Launch { drained: Option<usize> },
    Spawn { drained: Option<usize> },
    Send,
    FinalDrain { slot: usize },
    FinalSend { slot: usize },
    Join { slot: usize },
    Over,
}

/// The pipeline's state as mathematical values.
#[verifier::ext_equal]
pub struct GdsState {
    pub fragments: usize,
    /// The fragment that is being worked on.
    pub index: usize,
    pub phase: GdsPhase,
    /// Of each slot the fragment that a background task reads into it.
    pub pending: Seq<Option<usize>>,
    /// Of each slot the fragment that was transformed in it and not taken out yet.
    pub occupants: Seq<Option<usize>>,
    pub failed: bool,
}

/// The slot of a fragment.
pub open spec fn slot_of(fragment: usize) -> usize {
    (fragment as int % GDS_PIPELINE_SLOTS as int) as usize
}

impl GdsState {
    pub open spec fn initial(fragments: usize) -> GdsState {
        GdsState {
            fragments,
            index: 0,
            phase: GdsPhase::Prefetch,
            pending: seq![None, None, None, None],
            occupants: seq![None, None, None, None],
            failed: false,
        }
    }

    /// Goes on with the fragment at `index`, or drains the slots after the last one.
    pub open spec fn next_fragment(self) -> (GdsState, GdsAction) {
        let slot = slot_of(self.index);
        if self.index >= self.fragments {
            self.drain_slot(0)
        } else if self.pending[slot as int] is Some {
            (
                GdsState {
                    phase: GdsPhase::Prefetch,
                    pending: self.pending.update(slot as int, None),
                    ..self
                },
                GdsAction::AwaitPrefetch { fragment: self.index, slot },
            )
        } else {
            (
                GdsState { phase: GdsPhase::Prefetch, ..self },
                GdsAction::ResolveInline { fragment: self.index, slot },
            )
        }
    }

    /// Takes what is left out of `slot` and the slots after it.
    pub open spec fn drain_slot(self, slot: usize) -> (GdsState, GdsAction) {
        if slot < GDS_PIPELINE_SLOTS {
            (
                GdsState { phase: GdsPhase::FinalDrain { slot }, ..self },
                GdsAction::Drain { slot, batch: self.occupants[slot as int] },
            )
        } else {
            self.join_slot(0)
        }
    }

    /// Joins what still runs in the background for `slot` and the slots after it.
    pub open spec fn join_slot(self, slot: usize) -> (GdsState, GdsAction)
        decreases GDS_PIPELINE_SLOTS - slot,
    {
        if slot >= GDS_PIPELINE_SLOTS {
            (
                GdsState { phase: GdsPhase::Over, ..self },
                if self.failed {
                    GdsAction::Fail
                } else {
                    GdsAction::Finish
                },
            )
        } else {
            match self.pending[slot as int] {
                Some(fragment) => (
                    GdsState { phase: GdsPhase::Join { slot }, ..self },
                    GdsAction::Join { fragment, slot },
                ),
                None => self.join_slot((slot + 1) as usize),
            }
        }
    }

    /// Hands on what was drained before the launch, and then goes on.
    pub open spec fn send_drained(self, drained: Option<usize>) -> (GdsState, GdsAction) {
        match drained {
            Some(batch) => (
                GdsState { phase: GdsPhase::Send, ..self },
                GdsAction::Send { batch },
            ),
            None => GdsState { index: (self.index + 1) as usize, ..self }.next_fragment(),
        }
    }

    /// Whether `event` answers the action that the pipeline is at.
    pub open spec fn answers(self, event: GdsEvent) -> bool {
        match event {
            GdsEvent::Prefetched { .. } => self.phase is Prefetch,
            GdsEvent::Done => !(self.phase is Prefetch),
            GdsEvent::Failed => true,
        }
    }

    /// What follows on `event`.
    pub open spec fn after(self, event: GdsEvent) -> (GdsState, GdsAction) {
        let slot = slot_of(self.index);
        match self.phase {
            GdsPhase::Over => (
                self,
                if self.failed {
                    GdsAction::Fail
                } else {
                    GdsAction::Finish
                },
            ),
            GdsPhase::Join { slot } => GdsState {
                pending: self.pending.update(slot as int, None),
                ..self
            }.join_slot((slot + 1) as usize),
            _ => if event is Failed {
                GdsState { failed: true, ..self }.join_slot(0)
            } else {
                match self.phase {
                    GdsPhase::Prefetch => if event == (GdsEvent::Prefetched { has_rows: false }) {
                        GdsState { index: (self.index + 1) as usize, ..self }.next_fragment()
                    } else {
                        (
                            GdsState { phase: GdsPhase::Reads, ..self },
                            GdsAction::AwaitReads { fragment: self.index, slot },
                        )
                    },
                    GdsPhase::Reads => (
                        GdsState { phase: GdsPhase::Drain, ..self },
                        GdsAction::Drain { slot, batch: self.occupants[slot as int] },
                    ),
                    GdsPhase::Drain => (
                        GdsState {
                            phase: GdsPhase::Launch { drained: self.occupants[slot as int] },
                            occupants: self.occupants.update(slot as int, None),
                            ..self
                        },
                        GdsAction::Launch { fragment: self.index, slot },
                    ),
                    GdsPhase::Launch { drained } => {
                        let launched = GdsState {
                            occupants: self.occupants.update(slot as int, Some(self.index)),
                            ..self
                        };
                        if self.index + GDS_PIPELINE_SLOTS < self.fragments {
                            let ahead = (self.index + GDS_PIPELINE_SLOTS) as usize;
                            (
                                GdsState {
                                    phase: GdsPhase::Spawn { drained },
                                    pending: self.pending.update(slot as int, Some(ahead)),
                                    ..launched
                                },
                                GdsAction::SpawnPrefetch { fragment: ahead, slot },
                            )
                        } else {
                            launched.send_drained(drained)
                        }
                    },
                    GdsPhase::Spawn { drained } => self.send_drained(drained),
                    GdsPhase::Send => GdsState {
                        index: (self.index + 1) as usize,
                        ..self
                    }.next_fragment(),
                    GdsPhase::FinalDrain { slot } => match self.occupants[slot as int] {
                        Some(batch) => (
                            GdsState {
                                phase: GdsPhase::FinalSend { slot },
                                occupants: self.occupants.update(slot as int, None),
                                ..self
                            },
                            GdsAction::Send { batch },
                        ),
                        None => self.drain_slot((slot + 1) as usize),
                    },
                    GdsPhase::FinalSend { slot } => self.drain_slot((slot + 1) as usize),
                    _ => (self, GdsAction::Fail),
                }
            },
        }
    }

    /// What every reachable state keeps.
    pub open spec fn wf(self) -> bool {
        &&& self.pending.len() == GDS_PIPELINE_SLOTS
        &&& self.occupants.len() == GDS_PIPELINE_SLOTS
        &&& self.index <= self.fragments
        &&& self.working() ==> self.index < self.fragments
        &&& self.phase matches GdsPhase::FinalDrain { slot } ==> slot < GDS_PIPELINE_SLOTS
        &&& self.phase matches GdsPhase::FinalSend { slot } ==> slot < GDS_PIPELINE_SLOTS
        &&& self.phase matches GdsPhase::Join { slot } ==> slot < GDS_PIPELINE_SLOTS
    }
}

/// The pipeline over the fragments of a dataset.
#[derive(Debug)]
pub struct GdsPipeline {
    fragments: usize,
    index: usize,
    phase: GdsPhase,
    pending: Vec<Option<usize>>,
    occupants: Vec<Option<usize>>,
    failed: bool,
}

impl View for GdsPipeline {
    type V = GdsState;

    closed spec fn view(&self) -> GdsState {
        GdsState {
            fragments: self.fragments,
            index: self.index,
            phase: self.phase,
            pending: self.pending@,
            occupants: self.occupants@,
            failed: self.failed,
        }
    }
}

impl GdsPipeline {
    /// A pipeline over `fragments` fragments, and the first thing to do.
    pub fn start(fragments: usize) -> (started: (GdsPipeline, GdsAction))
        ensures
            (started.0@, started.1) == GdsState::initial(fragments).next_fragment(),
            started.0@.wf(),
    {
        let mut pending: Vec<Option<usize>> = Vec::new();
        let mut occupants: Vec<Option<usize>> = Vec::new();
        pending.push(None);
        pending.push(None);
        pending.push(None);
        pending.push(None);
        occupants.push(None);
        occupants.push(None);
        occupants.push(None);
        occupants.push(None);
        let mut pipeline = GdsPipeline {
            fragments,
            index: 0,
            phase: GdsPhase::Prefetch,
            pending,
            occupants,
            failed: false,
        };
        assert(pipeline@ =~= GdsState::initial(fragments));
        let action = pipeline.next_fragment();
        (pipeline, action)
    }

    fn next_fragment(&mut self) -> (action: GdsAction)
        requires
            old(self)@.pending.len() == GDS_PIPELINE_SLOTS,
            old(self)@.occupants.len() == GDS_PIPELINE_SLOTS,
            old(self)@.index <= old(self)@.fragments,
        ensures
            (final(self)@, action) == old(self)@.next_fragment(),
            final(self)@.wf(),
    {
        if self.index >= self.fragments {
            return self.drain_slot(0);
        }
        let slot: usize = self.index % GDS_PIPELINE_SLOTS;
        self.phase = GdsPhase::Prefetch;
        if self.pending[slot].is_some() {
            self.pending.set(slot, None);
            GdsAction::AwaitPrefetch { fragment: self.index, slot }
        } else {
            GdsAction::ResolveInline { fragment: self.index, slot }
        }
    }

    fn drain_slot(&mut self, slot: usize) -> (action: GdsAction)
        requires
            old(self)@.pending.len() == GDS_PIPELINE_SLOTS,
            old(self)@.occupants.len() == GDS_PIPELINE_SLOTS,
            old(self)@.index <= old(self)@.fragments,
        ensures
            (final(self)@, action) == old(self)@.drain_slot(slot),
            final(self)@.wf(),
    {
        if slot < GDS_PIPELINE_SLOTS {
            self.phase = GdsPhase::FinalDrain { slot };
            GdsAction::Drain { slot, batch: self.occupants[slot] }
        } else {
            self.join_slot(0)
        }
    }

    fn join_slot(&mut self, first: usize) -> (action: GdsAction)
        requires
            old(self)@.pending.len() == GDS_PIPELINE_SLOTS,
            old(self)@.occupants.len() == GDS_PIPELINE_SLOTS,
            old(self)@.index <= old(self)@.fragments,
        ensures
            (final(self)@, action) == old(self)@.join_slot(first),
            final(self)@.wf(),
        decreases GDS_PIPELINE_SLOTS - first,
    {
        if first >= GDS_PIPELINE_SLOTS {
            self.phase = GdsPhase::Over;
            if self.failed {
                GdsAction::Fail
            } else {
                GdsAction::Finish
            }
        } else {
            match self.pending[first] {
                Some(fragment) => {
                    self.phase = GdsPhase::Join { slot: first };
                    GdsAction::Join { fragment, slot: first }
                },
                None => self.join_slot(first + 1),
            }
        }
    }

    fn send_drained(&mut self, drained: Option<usize>) -> (action: GdsAction)
        requires
            old(self)@.pending.len() == GDS_PIPELINE_SLOTS,
            old(self)@.occupants.len() == GDS_PIPELINE_SLOTS,
            old(self)@.index < old(self)@.fragments,
        ensures
            (final(self)@, action) == old(self)@.send_drained(drained),
            final(self)@.wf(),
    {
        match drained {
            Some(batch) => {
                self.phase = GdsPhase::Send;
                GdsAction::Send { batch }
            },
            None => {
                self.index = self.index + 1;
                self.next_fragment()
            },
        }
    }

    /// Notes how the last action went, and says what to do next.
    pub fn step(&mut self, event: GdsEvent) -> (action: GdsAction)
        requires
            old(self)@.wf(),
            old(self)@.answers(event),
        ensures
            (final(self)@, action) == old(self)@.after(event),
            final(self)@.wf(),
    {
        let slot: usize = self.index % GDS_PIPELINE_SLOTS;
        match self.phase {
            GdsPhase::Over => {
                return if self.failed {
                    GdsAction::Fail
                } else {
                    GdsAction::Finish
                };
            },
            GdsPhase::Join { slot } => {
                self.pending.set(slot, None);
                return self.join_slot(slot + 1);
            },
            _ => {},
        }
        if event == GdsEvent::Failed {
            self.failed = true;
            return self.join_slot(0);
        }
        match self.phase {
            GdsPhase::Prefetch => {
                if event == (GdsEvent::Prefetched { has_rows: false }) {
                    self.index = self.index + 1;
                    self.next_fragment()
                } else {
                    self.phase = GdsPhase::Reads;
                    GdsAction::AwaitReads { fragment: self.index, slot }
                }
            },
            GdsPhase::Reads => {
                self.phase = GdsPhase::Drain;
                GdsAction::Drain { slot, batch: self.occupants[slot] }
            },
            GdsPhase::Drain => {
                self.phase = GdsPhase::Launch { drained: self.occupants[slot] };
                self.occupants.set(slot, None);
                GdsAction::Launch { fragment: self.index, slot }
            },
            GdsPhase::Launch { drained } => {
                self.occupants.set(slot, Some(self.index));
                if self.fragments - self.index > GDS_PIPELINE_SLOTS {
                    let ahead: usize = self.index + GDS_PIPELINE_SLOTS;
                    self.pending.set(slot, Some(ahead));
                    self.phase = GdsPhase::Spawn { drained };
                    GdsAction::SpawnPrefetch { fragment: ahead, slot }
                } else {
                    self.send_drained(drained)
                }
            },
            GdsPhase::Spawn { drained } => self.send_drained(drained),
            GdsPhase::Send => {
                self.index = self.index + 1;
                self.next_fragment()
            },
            GdsPhase::FinalDrain { slot } => match self.occupants[slot] {
                Some(batch) => {
                    self.occupants.set(slot, None);
                    self.phase = GdsPhase::FinalSend { slot };
                    GdsAction::Send { batch }
                },
                None => self.drain_slot(slot + 1),
            },
            GdsPhase::FinalSend { slot } => self.drain_slot(slot + 1),
            _ => GdsAction::Fail,
        }
    }
}

/// The state after `events`, and all actions up to there.
pub open spec fn run(fragments: usize, events: Seq<GdsEvent>) -> (GdsState, Seq<GdsAction>)
    decreases events.len(),
{
    if events.len() == 0 {
        let (state, action) = GdsState::initial(fragments).next_fragment();
        (state, seq![action])
    } else {
        let (state, actions) = run(fragments, events.drop_last());
        let (next, action) = state.after(events.last());
        (next, actions.push(action))
    }
}

/// Whether each of `events` answers the action before it.
pub open spec fn answers_all(fragments: usize, events: Seq<GdsEvent>) -> bool
    decreases events.len(),
{
    events.len() == 0 || {
        &&& answers_all(fragments, events.drop_last())
        &&& run(fragments, events.drop_last()).0.answers(events.last())
    }
}

/// Whether `action` asks for the reads of `fragment`.
pub open spec fn asks_for(action: GdsAction, fragment: usize) -> bool {
    match action {
        GdsAction::AwaitPrefetch { fragment: f, .. } => f == fragment,
        GdsAction::ResolveInline { fragment: f, .. } => f == fragment,
        _ => false,
    }
}

/// How often the reads of `fragment` were asked for.
pub open spec fn asked(actions: Seq<GdsAction>, fragment: usize) -> nat
    decreases actions.len(),
{
    if actions.len() == 0 {
        0
    } else {
        asked(actions.drop_last(), fragment) + if asks_for(actions.last(), fragment) {
            1nat
        } else {
            0
        }
    }
}

/// How often `fragment` was launched.
pub open spec fn launched(actions: Seq<GdsAction>, fragment: usize) -> nat
    decreases actions.len(),
{
    if actions.len() == 0 {
        0
    } else {
        launched(actions.drop_last(), fragment) + match actions.last() {
            GdsAction::Launch { fragment: f, .. } if f == fragment => 1nat,
            _ => 0,
        }
    }
}

/// How often the batch of `fragment` was sent.
pub open spec fn sent(actions: Seq<GdsAction>, fragment: usize) -> nat
    decreases actions.len(),
{
    if actions.len() == 0 {
        0
    } else {
        sent(actions.drop_last(), fragment) + match actions.last() {
            GdsAction::Send { batch } if batch == fragment => 1nat,
            _ => 0,
        }
    }
}

/// How often it was answered that `fragment` has rows. The event at a place answers the
/// action at the same place.
pub open spec fn found_rows(
    actions: Seq<GdsAction>,
    events: Seq<GdsEvent>,
    fragment: usize,
) -> nat
    decreases events.len(),
{
    if events.len() == 0 {
        0
    } else {
        found_rows(actions, events.drop_last(), fragment) + if asks_for(
            actions[events.len() - 1],
            fragment,
        ) && events.last() == (GdsEvent::Prefetched { has_rows: true }) {
            1nat
        } else {
            0
        }
    }
}

proof fn lemma_found_rows_prefix(
    actions: Seq<GdsAction>,
    more: Seq<GdsAction>,
    events: Seq<GdsEvent>,
    fragment: usize,
)
    requires
        events.len() <= actions.len(),
        events.len() <= more.len(),
        forall|i: int| 0 <= i < events.len() ==> #[trigger] actions[i] == more[i],
    ensures
        found_rows(actions, events, fragment) == found_rows(more, events, fragment),
    decreases events.len(),
{
    if events.len() > 0 {
        lemma_found_rows_prefix(actions, more, events.drop_last(), fragment);
    }
}

impl GdsState {
    /// Whether a fragment is being worked on.
    pub open spec fn working(self) -> bool {
        self.phase is Prefetch || self.phase is Reads || self.phase is Drain
            || self.phase is Launch || self.phase is Spawn || self.phase is Send
    }

    /// Whether the fragment that is being worked on was not launched yet.
    pub open spec fn before_launch(self) -> bool {
        self.phase is Prefetch || self.phase is Reads || self.phase is Drain
    }

    /// How often `fragment` was launched and not handed on yet.
    pub open spec fn holds(self, fragment: usize) -> nat {
        (if self.occupants[slot_of(fragment) as int] == Some(fragment) {
            1nat
        } else {
            0
        }) + match self.phase {
            GdsPhase::Launch { drained } => (if drained == Some(fragment) {
                1nat
            } else {
                0
            }) + if self.index == fragment {
                1nat
            } else {
                0
            },
            GdsPhase::Spawn { drained } => if drained == Some(fragment) {
                1nat
            } else {
                0
            },
            _ => 0,
        }
    }

    /// Where fragments can be: transformed ones in their own slots, and background reads only
    /// for the next fragment of a slot, never into the slot that is being read or transformed.
    pub open spec fn in_order(self) -> bool {
        &&& forall|k: int|
            0 <= k < GDS_PIPELINE_SLOTS ==> (#[trigger] self.occupants[k] matches Some(g)
                ==> slot_of(g) == k && g <= self.index && (self.before_launch() || self.phase
                is Launch ==> g < self.index))
        &&& forall|k: int|
            0 <= k < GDS_PIPELINE_SLOTS ==> (#[trigger] self.pending[k] matches Some(g)
                ==> slot_of(g) == k && self.index < g <= self.index + GDS_PIPELINE_SLOTS && g
                < self.fragments && self.working())
        &&& self.before_launch() || self.phase is Launch
            ==> self.pending[slot_of(self.index) as int] is None
        &&& self.phase matches GdsPhase::Launch { drained: Some(g) } ==> g < self.index
        &&& self.phase matches GdsPhase::Spawn { drained: Some(g) } ==> g < self.index
        &&& self.phase is Launch ==> self.occupants[slot_of(self.index) as int] is None
        &&& !self.working() ==> self.index == self.fragments
        &&& self.phase matches GdsPhase::FinalDrain { slot } ==> forall|k: int|
            0 <= k < slot ==> #[trigger] self.occupants[k] is None
        &&& self.phase matches GdsPhase::FinalSend { slot } ==> forall|k: int|
            0 <= k <= slot ==> #[trigger] self.occupants[k] is None
        &&& self.phase is Join || self.phase is Over ==> forall|k: int|
            0 <= k < GDS_PIPELINE_SLOTS ==> #[trigger] self.occupants[k] is None
    }

    /// Whether the counts of actions fit the state, for `fragment`.
    pub open spec fn accounts_for(
        self,
        actions: Seq<GdsAction>,
        events: Seq<GdsEvent>,
        fragment: usize,
    ) -> bool {
        &&& launched(actions, fragment) == sent(actions, fragment) + self.holds(fragment)
        &&& asked(actions, fragment) == if fragment < self.index || (fragment == self.index
            && self.working()) {
            1nat
        } else {
            0
        }
        &&& found_rows(actions, events, fragment) == launched(actions, fragment) + if fragment
            == self.index && (self.phase is Reads || self.phase is Drain) {
            1nat
        } else {
            0
        }
        &&& found_rows(actions, events, fragment) <= 1
        &&& fragment > self.index || (fragment == self.index && self.phase is Prefetch)
            ==> found_rows(actions, events, fragment) == 0
    }

    /// Background tasks that were joined after a failure, or at the end, are gone.
    pub open spec fn joined(self) -> bool {
        &&& self.phase matches GdsPhase::Join { slot } ==> forall|k: int|
            0 <= k < slot ==> #[trigger] self.pending[k] is None
        &&& self.phase is Over ==> forall|k: int|
            0 <= k < GDS_PIPELINE_SLOTS ==> #[trigger] self.pending[k] is None
    }

    /// Whether the last action is the one that the phase stands for.
    pub open spec fn at_action(self, action: GdsAction) -> bool {
        match self.phase {
            GdsPhase::Prefetch => {
                ||| action == (GdsAction::AwaitPrefetch {
                    fragment: self.index,
                    slot: slot_of(self.index),
                })
                ||| action == (GdsAction::ResolveInline {
                    fragment: self.index,
                    slot: slot_of(self.index),
                })
            },
            GdsPhase::Reads => action == (GdsAction::AwaitReads {
                fragment: self.index,
                slot: slot_of(self.index),
            }),
            GdsPhase::Drain => action == (GdsAction::Drain {
                slot: slot_of(self.index),
                batch: self.occupants[slot_of(self.index) as int],
            }),
            GdsPhase::Launch { .. } => action == (GdsAction::Launch {
                fragment: self.index,
                slot: slot_of(self.index),
            }),
            GdsPhase::Spawn { .. } => {
                &&& self.index + GDS_PIPELINE_SLOTS < self.fragments
                &&& action == (GdsAction::SpawnPrefetch {
                    fragment: (self.index + GDS_PIPELINE_SLOTS) as usize,
                    slot: slot_of(self.index),
                })
            },
            GdsPhase::Send => action is Send,
            GdsPhase::FinalDrain { slot } => action == (GdsAction::Drain {
                slot,
                batch: self.occupants[slot as int],
            }),
            GdsPhase::FinalSend { .. } => action is Send,
            GdsPhase::Join { slot } => self.pending[slot as int] matches Some(fragment) && action
                == (GdsAction::Join { fragment, slot }),
            GdsPhase::Over => action == if self.failed {
                GdsAction::Fail
            } else {
                GdsAction::Finish
            },
        }
    }

    /// What holds after every run.
    pub open spec fn follows(self, actions: Seq<GdsAction>, events: Seq<GdsEvent>) -> bool {
        &&& self.wf()
        &&& actions.len() == events.len() + 1
        &&& self.at_action(actions.last())
        &&& self.joined()
        &&& !self.failed ==> {
            &&& self.in_order()
            &&& forall|fragment: usize| #[trigger]
                self.accounts_for(actions, events, fragment)
        }
    }
}

proof fn lemma_join_slot(state: GdsState, slot: usize)
    requires
        state.pending.len() == GDS_PIPELINE_SLOTS,
        state.occupants.len() == GDS_PIPELINE_SLOTS,
        state.index <= state.fragments,
        forall|k: int| 0 <= k < slot && k < GDS_PIPELINE_SLOTS ==> #[trigger] state.pending[k] is None,
    ensures
        ({
            let (next, action) = state.join_slot(slot);
            &&& next.wf()
            &&& next.joined()
            &&& next.at_action(action)
            &&& next == (GdsState { phase: next.phase, ..state })
            &&& next.phase is Join || next.phase is Over
            &&& action is Join || action is Finish || action is Fail
        }),
    decreases GDS_PIPELINE_SLOTS - slot,
{
    if slot < GDS_PIPELINE_SLOTS && state.pending[slot as int] is None {
        lemma_join_slot(state, (slot + 1) as usize);
    }
}

proof fn lemma_counts(
    actions: Seq<GdsAction>,
    events: Seq<GdsEvent>,
    action: GdsAction,
    event: GdsEvent,
    fragment: usize,
)
    requires
        actions.len() == events.len() + 1,
    ensures
        launched(actions.push(action), fragment) == launched(actions, fragment) + match action {
            GdsAction::Launch { fragment: f, .. } if f == fragment => 1nat,
            _ => 0,
        },
        sent(actions.push(action), fragment) == sent(actions, fragment) + match action {
            GdsAction::Send { batch } if batch == fragment => 1nat,
            _ => 0,
        },
        asked(actions.push(action), fragment) == asked(actions, fragment) + if asks_for(
            action,
            fragment,
        ) {
            1nat
        } else {
            0
        },
        found_rows(actions.push(action), events.push(event), fragment) == found_rows(
            actions,
            events,
            fragment,
        ) + if asks_for(actions.last(), fragment) && event == (GdsEvent::Prefetched {
            has_rows: true,
        }) {
            1nat
        } else {
            0
        },
{
    let more = actions.push(action);
    let told = events.push(event);
    assert(more.drop_last() =~= actions);
    assert(told.drop_last() =~= events);
    lemma_found_rows_prefix(more, actions, events, fragment);
    assert(more[events.len() as int] == actions.last());
}

proof fn lemma_account(
    state: GdsState,
    actions: Seq<GdsAction>,
    events: Seq<GdsEvent>,
    event: GdsEvent,
    fragment: usize,
)
    requires
        state.follows(actions, events),
        state.answers(event),
        !state.after(event).0.failed,
    ensures
        state.after(event).0.accounts_for(
            actions.push(state.after(event).1),
            events.push(event),
            fragment,
        ),
{
    let (next, action) = state.after(event);
    lemma_counts(actions, events, action, event, fragment);
    lemma_join_slot(state, 0);
    lemma_join_slot(GdsState { failed: true, ..state }, 0);
    match state.phase {
        GdsPhase::Join { slot } => {
            let freed = GdsState { pending: state.pending.update(slot as int, None), ..state };
            lemma_join_slot(freed, (slot + 1) as usize);
        },
        _ => {},
    }
    assert(state.accounts_for(actions, events, fragment));
    assert(state.at_action(actions.last()));
    let slot = slot_of(state.index);
    assert(state.occupants[slot as int] matches Some(g) ==> slot_of(g) == slot);
}

#[verifier::spinoff_prover]
#[verifier::rlimit(40)]
proof fn lemma_in_order(state: GdsState, event: GdsEvent)
    requires
        state.wf(),
        state.in_order(),
        state.joined(),
        state.answers(event),
        !state.after(event).0.failed,
    ensures
        state.after(event).0.in_order(),
{
    let next = state.after(event).0;
    lemma_join_slot(GdsState { failed: true, ..state }, 0);
    match state.phase {
        GdsPhase::Join { slot } => {
            let freed = GdsState { pending: state.pending.update(slot as int, None), ..state };
            lemma_join_slot(freed, (slot + 1) as usize);
        },
        _ => {
            lemma_join_slot(state, 0);
        },
    }
}

#[verifier::spinoff_prover]
#[verifier::rlimit(40)]
proof fn lemma_step(
    state: GdsState,
    actions: Seq<GdsAction>,
    events: Seq<GdsEvent>,
    event: GdsEvent,
)
    requires
        state.follows(actions, events),
        state.answers(event),
    ensures
        state.after(event).0.follows(actions.push(state.after(event).1), events.push(event)),
{
    let (next, action) = state.after(event);
    assert(next.wf() && next.joined() && next.at_action(action) && (state.failed ==> next.failed))
        by {
        match state.phase {
            GdsPhase::Over => {},
            GdsPhase::Join { slot } => {
                let freed = GdsState {
                    pending: state.pending.update(slot as int, None),
                    ..state
                };
                lemma_join_slot(freed, (slot + 1) as usize);
            },
            _ => {
                lemma_join_slot(GdsState { failed: true, ..state }, 0);
                lemma_join_slot(state, 0);
            },
        }
    }
    if !next.failed {
        lemma_in_order(state, event);
        assert forall|fragment: usize| #[trigger]
            next.accounts_for(actions.push(action), events.push(event), fragment) by {
            lemma_account(state, actions, events, event, fragment);
        }
    }
}

/// Every run keeps the pipeline's invariant.
proof fn lemma_run(fragments: usize, events: Seq<GdsEvent>)
    requires
        answers_all(fragments, events),
    ensures
        run(fragments, events).0.follows(run(fragments, events).1, events),
        run(fragments, events).0.fragments == fragments,
    decreases events.len(),
{
    let (state, actions) = run(fragments, events);
    if events.len() == 0 {
        let initial = GdsState::initial(fragments);
        let (first, action) = initial.next_fragment();
        assert(actions =~= seq![action]);
        assert(actions.drop_last() =~= Seq::empty());
        assert forall|fragment: usize| #[trigger]
            first.accounts_for(actions, events, fragment) by {
            reveal_with_fuel(asked, 2);
            reveal_with_fuel(launched, 2);
            reveal_with_fuel(sent, 2);
        }
    } else {
        let before = events.drop_last();
        lemma_run(fragments, before);
        lemma_step(run(fragments, before).0, run(fragments, before).1, before, events.last());
        assert(before.push(events.last()) =~= events);
        lemma_fragments_stay(run(fragments, before).0, events.last());
    }
}

proof fn lemma_fragments_stay(state: GdsState, event: GdsEvent)
    requires
        state.wf(),
        state.joined(),
    ensures
        state.after(event).0.fragments == state.fragments,
{
    match state.phase {
        GdsPhase::Over => {},
        GdsPhase::Join { slot } => {
            let freed = GdsState { pending: state.pending.update(slot as int, None), ..state };
            lemma_join_slot(freed, (slot + 1) as usize);
        },
        _ => {
            lemma_join_slot(GdsState { failed: true, ..state }, 0);
            lemma_join_slot(state, 0);
        },
    }
}

/// A run that finishes has asked for every fragment once, has transformed each fragment with
/// rows once, and has sent the batch of each transformed fragment once: no row is lost, and
/// none is sent twice.
pub proof fn law_every_fragment_is_sent_once(
    fragments: usize,
    events: Seq<GdsEvent>,
    fragment: usize,
)
    requires
        answers_all(fragments, events),
        run(fragments, events).1.last() is Finish,
        fragment < fragments,
    ensures
        ({
            let actions = run(fragments, events).1;
            &&& asked(actions, fragment) == 1
            &&& found_rows(actions, events, fragment) <= 1
            &&& launched(actions, fragment) == found_rows(actions, events, fragment)
            &&& sent(actions, fragment) == found_rows(actions, events, fragment)
        }),
{
    lemma_run(fragments, events);
    let (state, actions) = run(fragments, events);
    assert(state.at_action(actions.last()));
    assert(state.phase is Over && !state.failed);
    assert(state.accounts_for(actions, events, fragment));
    assert(state.occupants[slot_of(fragment) as int] is None);
}

/// As long as nothing failed, no batch is ever launched or sent twice, and none is sent that
/// was not launched.
pub proof fn law_nothing_is_sent_twice(
    fragments: usize,
    events: Seq<GdsEvent>,
    fragment: usize,
)
    requires
        answers_all(fragments, events),
        !run(fragments, events).0.failed,
    ensures
        launched(run(fragments, events).1, fragment) <= 1,
        sent(run(fragments, events).1, fragment) <= launched(run(fragments, events).1, fragment),
{
    lemma_run(fragments, events);
    assert(run(fragments, events).0.accounts_for(run(fragments, events).1, events, fragment));
}

/// A background read never meets another use of its slot. When a fragment's reads are awaited
/// or it is transformed, nothing else reads into its slot; and a background read into a slot
/// is started only right after the slot's transform was done.
pub proof fn law_reads_never_race_a_transform(fragments: usize, events: Seq<GdsEvent>)
    requires
        answers_all(fragments, events),
        !run(fragments, events).0.failed,
    ensures
        ({
            let (state, actions) = run(fragments, events);
            match actions.last() {
                GdsAction::AwaitReads { fragment, slot } => {
                    &&& slot == slot_of(fragment)
                    &&& state.pending[slot as int] is None
                },
                GdsAction::Launch { fragment, slot } => {
                    &&& slot == slot_of(fragment)
                    &&& state.pending[slot as int] is None
                },
                GdsAction::SpawnPrefetch { fragment, slot } => {
                    &&& slot == slot_of(fragment)
                    &&& events.len() > 0
                    &&& events.last() == GdsEvent::Done
                    &&& actions[actions.len() - 2] == (GdsAction::Launch {
                        fragment: (fragment - GDS_PIPELINE_SLOTS) as usize,
                        slot,
                    })
                },
                _ => true,
            }
        }),
{
    lemma_run(fragments, events);
    let (state, actions) = run(fragments, events);
    assert(state.at_action(actions.last()));
    if events.len() > 0 {
        let before = events.drop_last();
        lemma_run(fragments, before);
        let (prior, earlier) = run(fragments, before);
        assert(actions == earlier.push(actions.last()));
        assert(prior.at_action(earlier.last()));
        lemma_join_slot(GdsState { failed: true, ..prior }, 0);
        lemma_join_slot(prior, 0);
        match prior.phase {
            GdsPhase::Join { slot } => {
                let freed = GdsState {
                    pending: prior.pending.update(slot as int, None),
                    ..prior
                };
                lemma_join_slot(freed, (slot + 1) as usize);
            },
            _ => {},
        }
    }
}

/// However a run ends, nothing is left running in the background: the slots' memory can be
/// given back.
pub proof fn law_no_read_outlives_the_pipeline(fragments: usize, events: Seq<GdsEvent>, slot: int)
    requires
        answers_all(fragments, events),
        run(fragments, events).1.last() is Finish || run(fragments, events).1.last() is Fail,
        0 <= slot < GDS_PIPELINE_SLOTS,
    ensures
        run(fragments, events).0.pending[slot] is None,
        run(fragments, events).1.last() is Fail <==> run(fragments, events).0.failed,
{
    lemma_run(fragments, events);
    let (state, actions) = run(fragments, events);
    assert(state.at_action(actions.last()));
    assert(state.joined());
}

impl GdsState {
    /// How far the end is, at most.
    pub open spec fn distance(self) -> int {
        let ahead = 20 + (self.fragments - self.index) * 7;
        match self.phase {
            GdsPhase::Prefetch => ahead + 6,
            GdsPhase::Reads => ahead + 5,
            GdsPhase::Drain => ahead + 4,
            GdsPhase::Launch { .. } => ahead + 3,
            GdsPhase::Spawn { .. } => ahead + 2,
            GdsPhase::Send => ahead + 1,
            GdsPhase::FinalDrain { slot } => 7 + (GDS_PIPELINE_SLOTS - slot) * 2,
            GdsPhase::FinalSend { slot } => 6 + (GDS_PIPELINE_SLOTS - slot) * 2,
            GdsPhase::Join { slot } => 1 + GDS_PIPELINE_SLOTS - slot,
            GdsPhase::Over => 0,
        }
    }
}

/// Every step brings the end nearer, whatever happens: a run cannot go on for ever.
pub proof fn law_every_step_brings_the_end_nearer(state: GdsState, event: GdsEvent)
    requires
        state.wf(),
        state.joined(),
        state.answers(event),
        !(state.phase is Over),
    ensures
        0 <= state.after(event).0.distance() < state.distance(),
{
    match state.phase {
        GdsPhase::Join { slot } => {
            let freed = GdsState { pending: state.pending.update(slot as int, None), ..state };
            lemma_join_slot(freed, (slot + 1) as usize);
            lemma_join_slot_goes_on(freed, (slot + 1) as usize);
        },
        _ => {
            lemma_join_slot(GdsState { failed: true, ..state }, 0);
            lemma_join_slot(state, 0);
        },
    }
}

proof fn lemma_join_slot_goes_on(state: GdsState, slot: usize)
    requires
        state.pending.len() == GDS_PIPELINE_SLOTS,
    ensures
        state.join_slot(slot).0.phase matches GdsPhase::Join { slot: at } ==> at >= slot,
    decreases GDS_PIPELINE_SLOTS - slot,
{
    if slot < GDS_PIPELINE_SLOTS && state.pending[slot as int] is None {
        lemma_join_slot_goes_on(state, (slot + 1) as usize);
    }
}

/// The fragment that is in `slot` after the actions in `done`: the one that was launched there
/// last, unless the slot was drained since.
pub open spec fn content_of(done: Seq<GdsAction>, slot: usize) -> Option<usize>
    decreases done.len(),
{
    if done.len() == 0 {
        None
    } else {
        match done.last() {
            GdsAction::Launch { fragment, slot: at } if at == slot => Some(fragment),
            GdsAction::Drain { slot: at, .. } if at == slot => None,
            _ => content_of(done.drop_last(), slot),
        }
    }
}

/// The fragment that a background task reads into `slot` after the actions in `done`: the one
/// that was started there last, unless it was waited for or joined since.
pub open spec fn read_ahead(done: Seq<GdsAction>, slot: usize) -> Option<usize>
    decreases done.len(),
{
    if done.len() == 0 {
        None
    } else {
        match done.last() {
            GdsAction::SpawnPrefetch { fragment, slot: at } if at == slot => Some(fragment),
            GdsAction::AwaitPrefetch { slot: at, .. } if at == slot => None,
            GdsAction::Join { slot: at, .. } if at == slot => None,
            _ => read_ahead(done.drop_last(), slot),
        }
    }
}

/// The batch that was taken out of a slot by the actions in `done` and not sent since.
pub open spec fn in_hand(done: Seq<GdsAction>) -> Option<usize>
    decreases done.len(),
{
    if done.len() == 0 {
        None
    } else {
        match done.last() {
            GdsAction::Drain { batch, .. } => batch,
            GdsAction::Send { .. } => None,
            _ => in_hand(done.drop_last()),
        }
    }
}

/// How many fragments were asked for.
pub open spec fn asks(done: Seq<GdsAction>) -> nat
    decreases done.len(),
{
    if done.len() == 0 {
        0
    } else {
        asks(done.drop_last()) + if done.last() is AwaitPrefetch || done.last() is ResolveInline {
            1nat
        } else {
            0
        }
    }
}

/// Whether the last of `done` is to wait for reads.
pub open spec fn reads_were_awaited(done: Seq<GdsAction>) -> bool {
    done.len() > 0 && done.last() is AwaitReads
}

/// How often a slot was drained without a fragment waiting for it.
pub open spec fn final_drains(done: Seq<GdsAction>) -> nat
    decreases done.len(),
{
    if done.len() == 0 {
        0
    } else {
        final_drains(done.drop_last()) + if done.last() is Drain && !reads_were_awaited(
            done.drop_last(),
        ) {
            1nat
        } else {
            0
        }
    }
}

/// Whether `action` is one of those that bring a run to its end.
pub open spec fn ends(action: GdsAction) -> bool {
    action is Join || action is Finish || action is Fail
}

/// How many actions failed, apart from those that bring a run to its end. The event at a place
/// answers the action at the same place.
pub open spec fn failures(actions: Seq<GdsAction>, events: Seq<GdsEvent>) -> nat
    decreases events.len(),
{
    if events.len() == 0 {
        0
    } else {
        failures(actions, events.drop_last()) + if events.last() is Failed && !ends(
            actions[events.len() - 1],
        ) {
            1nat
        } else {
            0
        }
    }
}

/// Whether an action fits what was done before it.
pub open spec fn action_fits(
    fragments: usize,
    done: Seq<GdsAction>,
    events: Seq<GdsEvent>,
    action: GdsAction,
) -> bool {
    match action {
        GdsAction::AwaitPrefetch { fragment, slot } => {
            &&& fragment == asks(done)
            &&& fragment < fragments
            &&& slot == fragment as int % GDS_PIPELINE_SLOTS as int
            &&& in_hand(done) is None
            &&& read_ahead(done, slot) == Some(fragment)
        },
        GdsAction::ResolveInline { fragment, slot } => {
            &&& fragment == asks(done)
            &&& fragment < fragments
            &&& slot == fragment as int % GDS_PIPELINE_SLOTS as int
            &&& in_hand(done) is None
            &&& read_ahead(done, slot) is None
        },
        GdsAction::AwaitReads { fragment, slot } => {
            &&& done.len() > 0
            &&& done.last() == (GdsAction::AwaitPrefetch { fragment, slot }) || done.last() == (
            GdsAction::ResolveInline { fragment, slot })
            &&& events.last() == (GdsEvent::Prefetched { has_rows: true })
        },
        GdsAction::Drain { slot, batch } => {
            &&& slot < GDS_PIPELINE_SLOTS
            &&& batch == content_of(done, slot)
            &&& in_hand(done) is None
            &&& if reads_were_awaited(done) {
                done.last() matches GdsAction::AwaitReads { slot: at, .. } && at == slot
            } else {
                asks(done) == fragments && slot == final_drains(done)
            }
        },
        GdsAction::Launch { fragment, slot } => {
            &&& done.len() >= 2
            &&& done[done.len() - 2] == (GdsAction::AwaitReads { fragment, slot })
            &&& done.last() matches GdsAction::Drain { slot: at, .. } && at == slot
            &&& content_of(done, slot) is None
        },
        GdsAction::SpawnPrefetch { fragment, slot } => {
            &&& done.len() > 0
            &&& done.last() matches GdsAction::Launch { fragment: before, slot: at } && at == slot
                && fragment == before + GDS_PIPELINE_SLOTS
            &&& fragment < fragments
            &&& read_ahead(done, slot) is None
        },
        GdsAction::Send { batch } => in_hand(done) == Some(batch),
        GdsAction::Join { fragment, slot } => {
            &&& slot < GDS_PIPELINE_SLOTS
            &&& read_ahead(done, slot) == Some(fragment)
        },
        GdsAction::Finish => {
            &&& asks(done) == fragments
            &&& final_drains(done) == GDS_PIPELINE_SLOTS
            &&& in_hand(done) is None
            &&& forall|slot: usize|
                slot < GDS_PIPELINE_SLOTS ==> #[trigger] content_of(done, slot) is None
                    && read_ahead(done, slot) is None
        },
        GdsAction::Fail => forall|slot: usize|
            slot < GDS_PIPELINE_SLOTS ==> #[trigger] read_ahead(done, slot) is None,
    }
}

impl GdsState {
    /// What the state knows of the actions up to the last one, which is not answered yet.
    spec fn knows(self, actions: Seq<GdsAction>, events: Seq<GdsEvent>) -> bool {
        let done = actions.drop_last();
        let last = actions.last();
        let slot = slot_of(self.index);
        &&& self.failed <==> failures(actions, events) > 0
        &&& !(self.phase is Join) ==> forall|k: usize|
            k < GDS_PIPELINE_SLOTS ==> self.pending[k as int] == #[trigger] read_ahead(actions, k)
        &&& self.phase is Join ==> forall|k: usize|
            k < GDS_PIPELINE_SLOTS ==> self.pending[k as int] == #[trigger] read_ahead(done, k)
        &&& self.failed ==> self.phase is Join || self.phase is Over
        &&& !self.failed ==> {
            &&& forall|k: usize|
                k < GDS_PIPELINE_SLOTS ==> self.occupants[k as int] == #[trigger] content_of(
                    done,
                    k,
                )
            &&& asks(actions) == self.index + if self.working() {
                1int
            } else {
                0
            }
            &&& final_drains(actions) == match self.phase {
                GdsPhase::FinalDrain { slot } => slot + 1,
                GdsPhase::FinalSend { slot } => slot + 1,
                GdsPhase::Over => GDS_PIPELINE_SLOTS as int,
                _ => 0,
            }
            &&& in_hand(done) == match self.phase {
                GdsPhase::Launch { drained } => drained,
                GdsPhase::Spawn { drained } => drained,
                GdsPhase::Send => Some(last->Send_batch),
                GdsPhase::FinalSend { .. } => Some(last->Send_batch),
                _ => None,
            }
            &&& !(self.phase is Join)
            &&& self.phase is Drain ==> done.len() > 0 && done.last() == (GdsAction::AwaitReads {
                fragment: self.index,
                slot,
            })
            &&& self.phase is FinalDrain ==> !reads_were_awaited(done)
        }
    }
}

proof fn lemma_nothing_to_join(state: GdsState, slot: usize)
    requires
        state.pending.len() == GDS_PIPELINE_SLOTS,
        forall|k: int| 0 <= k < GDS_PIPELINE_SLOTS ==> #[trigger] state.pending[k] is None,
    ensures
        state.join_slot(slot).0 == (GdsState { phase: GdsPhase::Over, ..state }),
        state.join_slot(slot).1 == if state.failed {
            GdsAction::Fail
        } else {
            GdsAction::Finish
        },
    decreases GDS_PIPELINE_SLOTS - slot,
{
    if slot < GDS_PIPELINE_SLOTS {
        lemma_nothing_to_join(state, (slot + 1) as usize);
    }
}

proof fn lemma_failures_prefix(
    actions: Seq<GdsAction>,
    more: Seq<GdsAction>,
    events: Seq<GdsEvent>,
)
    requires
        events.len() <= actions.len(),
        events.len() <= more.len(),
        forall|i: int| 0 <= i < events.len() ==> #[trigger] actions[i] == more[i],
    ensures
        failures(actions, events) == failures(more, events),
    decreases events.len(),
{
    if events.len() > 0 {
        lemma_failures_prefix(actions, more, events.drop_last());
    }
}

/// What is to be shown of one step.
spec fn goes_on_fitting(
    state: GdsState,
    actions: Seq<GdsAction>,
    events: Seq<GdsEvent>,
    event: GdsEvent,
) -> bool {
    let (next, action) = state.after(event);
    &&& next.knows(actions.push(action), events.push(event))
    &&& state.phase is Over ==> action == actions.last()
    &&& !(state.phase is Over) ==> action_fits(
        state.fragments,
        actions,
        events.push(event),
        action,
    )
    &&& next.failed ==> action is Join || action is Fail
    &&& !next.failed ==> !(action is Join) && !(action is Fail)
    &&& !next.failed && actions.last() is Launch && actions.last()->Launch_fragment
        + GDS_PIPELINE_SLOTS < state.fragments ==> action is SpawnPrefetch
}

#[verifier::spinoff_prover]
#[verifier::rlimit(40)]
proof fn lemma_step_fits(
    state: GdsState,
    actions: Seq<GdsAction>,
    events: Seq<GdsEvent>,
    event: GdsEvent,
)
    requires
        state.follows(actions, events),
        state.knows(actions, events),
        state.answers(event),
    ensures
        goes_on_fitting(state, actions, events, event),
{
    let (next, action) = state.after(event);
    let more = actions.push(action);
    let told = events.push(event);
    let done = actions.drop_last();
    assert(more.drop_last() =~= actions);
    assert(told.drop_last() =~= events);
    lemma_failures_prefix(more, actions, events);
    assert(more[events.len() as int] == actions.last());
    assert(state.at_action(actions.last()));
    if !state.failed {
        assert forall|k: usize| k < GDS_PIPELINE_SLOTS implies #[trigger] content_of(actions, k)
            == (match actions.last() {
            GdsAction::Launch { fragment, slot: at } if at == k => Some(fragment),
            GdsAction::Drain { slot: at, .. } if at == k => None,
            _ => state.occupants[k as int],
        }) by {
            assert(state.occupants[k as int] == content_of(done, k));
        }
    }
    match state.phase {
        GdsPhase::Over => {},
        GdsPhase::Join { slot } => {
            let freed = GdsState { pending: state.pending.update(slot as int, None), ..state };
            lemma_join_slot(freed, (slot + 1) as usize);
            assert forall|k: usize| k < GDS_PIPELINE_SLOTS implies freed.pending[k as int]
                == #[trigger] read_ahead(actions, k) by {
                assert(state.pending[k as int] == read_ahead(done, k));
            }
        },
        _ => {
            if event is Failed {
                lemma_join_slot(GdsState { failed: true, ..state }, 0);
            } else if !state.working() {
                lemma_nothing_to_join(state, 0);
            }
        },
    }
    if !(next.phase is Join) {
        assert forall|k: usize| k < GDS_PIPELINE_SLOTS implies next.pending[k as int]
            == #[trigger] read_ahead(more, k) by {
            if !(state.phase is Join) {
                assert(state.pending[k as int] == read_ahead(actions, k));
            }
        }
    }
}

proof fn lemma_run_fits(fragments: usize, events: Seq<GdsEvent>)
    requires
        answers_all(fragments, events),
    ensures
        run(fragments, events).0.knows(run(fragments, events).1, events),
        events.len() == 0 ==> action_fits(
            fragments,
            Seq::empty(),
            events,
            run(fragments, events).1.last(),
        ),
    decreases events.len(),
{
    let (state, actions) = run(fragments, events);
    if events.len() == 0 {
        assert(actions.drop_last() =~= Seq::empty());
        reveal_with_fuel(asks, 2);
        reveal_with_fuel(final_drains, 2);
        assert forall|k: usize| k < GDS_PIPELINE_SLOTS implies state.pending[k as int]
            == #[trigger] read_ahead(actions, k) by {
            reveal_with_fuel(read_ahead, 2);
        }
    } else {
        let before = events.drop_last();
        lemma_run(fragments, before);
        lemma_run_fits(fragments, before);
        lemma_step_fits(run(fragments, before).0, run(fragments, before).1, before, events.last());
        assert(before.push(events.last()) =~= events);
    }
}

/// Every action fits what was done before it. Fragments are asked for one after the other, each
/// in its own slot, and waited for in the background only where their reads were started there
/// and are still under way. Reads are awaited for the fragment that was just asked for, if it
/// has rows; then its slot is drained; then it is launched there, in a slot that is empty. A
/// slot is drained of the very fragment that was launched in it last and not drained since, and
/// that batch is sent before another one is taken out. Reads ahead are started right after a
/// launch, for the fragment that comes to the same slot next, whenever there is one. A run
/// finishes with every fragment asked for, every slot drained once more in turn, every slot
/// empty, nothing in hand and nothing under way; once something failed, it only waits for what
/// is under way, and fails with nothing left of that.
pub proof fn law_actions_fit_what_was_done(fragments: usize, events: Seq<GdsEvent>)
    requires
        answers_all(fragments, events),
    ensures
        ({
            let actions = run(fragments, events).1;
            let done = actions.drop_last();
            &&& actions.len() == events.len() + 1
            &&& if done.len() > 0 && (done.last() is Finish || done.last() is Fail) {
                actions.last() == done.last()
            } else {
                action_fits(fragments, done, events, actions.last())
            }
            &&& failures(actions, events) > 0 <==> actions.last() is Join || actions.last() is Fail
            &&& failures(actions, events) == 0 && done.len() > 0 ==> (done.last() matches
                GdsAction::Launch { fragment, .. } ==> (fragment + GDS_PIPELINE_SLOTS < fragments
                ==> actions.last() is SpawnPrefetch))
        }),
{
    lemma_run(fragments, events);
    lemma_run_fits(fragments, events);
    let (state, actions) = run(fragments, events);
    assert(state.at_action(actions.last()));
    if events.len() == 0 {
        assert(actions.drop_last() =~= Seq::empty());
    } else {
        let before = events.drop_last();
        lemma_run(fragments, before);
        lemma_run_fits(fragments, before);
        let (prior, earlier) = run(fragments, before);
        lemma_step_fits(prior, earlier, before, events.last());
        assert(before.push(events.last()) =~= events);
        assert(actions.drop_last() =~= earlier);
        assert(prior.at_action(earlier.last()));
    }
}

/// Between a fragment's launch and the sending of its batch, its batch was taken out of the slot
/// it was launched in.
pub proof fn law_sent_batches_come_out_of_their_slots(fragments: usize, events: Seq<GdsEvent>)
    requires
        answers_all(fragments, events),
        run(fragments, events).1.last() is Send,
    ensures
        ({
            let actions = run(fragments, events).1;
            let batch = actions.last()->Send_batch;
            exists|launch: int, drain: int|
                {
                    &&& 0 <= launch < drain < actions.len() - 1
                    &&& #[trigger] actions[launch] matches GdsAction::Launch { fragment, slot }
                    &&& fragment == batch
                    &&& #[trigger] actions[drain] == (GdsAction::Drain { slot, batch: Some(batch) })
                    &&& forall|i: int|
                        launch < i < drain ==> !(#[trigger] actions[i] matches GdsAction::Drain {
                            slot: at,
                            ..
                        } && at == slot)
                }
        }),
{
    lemma_run(fragments, events);
    law_actions_fit_what_was_done(fragments, events);
    let (state, actions) = run(fragments, events);
    let done = actions.drop_last();
    let batch = actions.last()->Send_batch;
    let drain = lemma_in_hand(done, batch);
    let told = events.take(drain);
    lemma_prefix(fragments, events, drain);
    lemma_run(fragments, told);
    law_actions_fit_what_was_done(fragments, told);
    let slot = done[drain]->Drain_slot;
    assert(run(fragments, told).1 == actions.take(drain + 1));
    assert(actions.take(drain + 1).drop_last() =~= actions.take(drain));
    if drain > 0 {
        assert(actions.take(drain).last() == actions[drain - 1]);
    }
    let launch = lemma_content(actions.take(drain), slot, batch);
    assert(actions[launch] == actions.take(drain)[launch]);
    assert forall|i: int| launch < i < drain implies !(#[trigger] actions[i] matches
        GdsAction::Drain { slot: at, .. } && at == slot) by {
        assert(actions[i] == actions.take(drain)[i]);
    }
}

proof fn lemma_in_hand(done: Seq<GdsAction>, batch: usize) -> (drain: int)
    requires
        in_hand(done) == Some(batch),
    ensures
        0 <= drain < done.len(),
        done[drain] matches GdsAction::Drain { batch: taken, .. } && taken == Some(batch),
    decreases done.len(),
{
    if done.last() is Drain {
        done.len() - 1
    } else {
        lemma_in_hand(done.drop_last(), batch)
    }
}

proof fn lemma_content(done: Seq<GdsAction>, slot: usize, fragment: usize) -> (launch: int)
    requires
        content_of(done, slot) == Some(fragment),
    ensures
        0 <= launch < done.len(),
        done[launch] == (GdsAction::Launch { fragment, slot }),
        forall|i: int|
            launch < i < done.len() ==> !(#[trigger] done[i] matches GdsAction::Drain {
                slot: at,
                ..
            } && at == slot),
    decreases done.len(),
{
    match done.last() {
        GdsAction::Launch { slot: at, .. } if at == slot => done.len() - 1,
        _ => {
            let launch = lemma_content(done.drop_last(), slot, fragment);
            assert forall|i: int| launch < i < done.len() implies !(#[trigger] done[i] matches
                GdsAction::Drain { slot: at, .. } && at == slot) by {
                if i < done.len() - 1 {
                    assert(done[i] == done.drop_last()[i]);
                }
            }
            launch
        },
    }
}

proof fn lemma_prefix(fragments: usize, events: Seq<GdsEvent>, len: int)
    requires
        answers_all(fragments, events),
        0 <= len <= events.len(),
    ensures
        answers_all(fragments, events.take(len)),
        run(fragments, events.take(len)).1 == run(fragments, events).1.take(len + 1),
    decreases events.len(),
{
    lemma_run(fragments, events);
    let actions = run(fragments, events).1;
    if len == events.len() {
        assert(events.take(len) =~= events);
        assert(actions.take(len + 1) =~= actions);
    } else {
        let before = events.drop_last();
        lemma_run(fragments, before);
        lemma_prefix(fragments, before, len);
        assert(before.take(len) =~= events.take(len));
        assert(actions.take(len + 1) =~= run(fragments, before).1.take(len + 1));
    }
}

} // verus!

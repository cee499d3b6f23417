//! The scan pipeline's driver: prepared batches come in, go through the transform slots in
//! turn, and are handed to the artifact writer.
//!
//! The driver is driven from outside. Each [`ScanPipeline::step`] is told how the last action
//! went and says what to do next.

use crate::settings::PIPELINE_SLOTS;
use vstd::prelude::*;

verus! {

/// What to do next. A batch is named by its number in the order in which it was received.
#[allow(inconsistent_fields)]
#[derive(Debug, Clone, Copy, PartialEq, Eq, Structural)]
pub enum ScanAction {
    /// Wait for the next prepared batch.
    Receive,
    /// Take the batch out of the slot, if there is one.
    Drain { slot: usize, batch: Option<usize> },
    /// Transform the received batch in the slot.
    Launch { batch: usize, slot: usize },
    /// Hand the batch that was drained to the artifact writer.
    Send { batch: usize },
    /// Wait for a prepare worker to end, and merge what it counted.
    JoinWorker { worker: usize },
    /// Wait for the scanner to end, and merge what it counted.
    JoinScanner,
    /// Everything was handed on.
    Finish,
    /// Something failed.
    Fail,
}

/// How the last action went.
#[derive(Debug, Clone, Copy, PartialEq, Eq, Structural)]
pub enum ScanEvent {
    /// A batch was received; or there are no more.
    Received { batch: bool },
    /// Any other action is done.
    Done,
    Failed,
}

/// Where the driver is.
#[derive(Debug, Clone, Copy, PartialEq, Eq, Structural)]
pub enum ScanPhase {
    Receive,
    Drain,
    Launch { drained: Option<usize> },
    Send,
    JoinWorker { worker: usize },
    JoinScanner,
    FinalDrain { slot: usize },
    FinalSend { slot: usize },
    Over,
}

/// The driver's state as mathematical values.
#[verifier::ext_equal]
pub struct ScanState {
    pub workers: usize,
    /// The batch that is being worked on, or the next one.
    pub index: usize,
    /// The slot that it goes to.
    pub next_slot: usize,
    pub phase: ScanPhase,
    /// Of each slot the batch that was transformed in it and not taken out yet.
    pub occupants: Seq<Option<usize>>,
    pub failed: bool,
}

/// The slot of a batch.
pub open spec fn turn_of(batch: usize) -> usize {
    (batch as int % PIPELINE_SLOTS as int) as usize
}

impl ScanState {
    pub open spec fn initial(workers: usize) -> ScanState {
        ScanState {
            workers,
            index: 0,
            next_slot: 0,
            phase: ScanPhase::Receive,
            occupants: seq![None, None],
            failed: false,
        }
    }

    /// Goes on with the next batch and the next slot.
    pub open spec fn next_batch(self) -> (ScanState, ScanAction) {
        (
            ScanState {
                index: (self.index + 1) as usize,
                next_slot: turn_of((self.next_slot + 1) as usize),
                phase: ScanPhase::Receive,
                ..self
            },
            ScanAction::Receive,
        )
    }

    /// Waits for `worker` and those after it, and then for the scanner.
    pub open spec fn join_worker(self, worker: usize) -> (ScanState, ScanAction) {
        if worker < self.workers {
            (
                ScanState { phase: ScanPhase::JoinWorker { worker }, ..self },
                ScanAction::JoinWorker { worker },
            )
        } else {
            (ScanState { phase: ScanPhase::JoinScanner, ..self }, ScanAction::JoinScanner)
        }
    }

    /// Takes what is left out of `slot` and the slots after it.
    pub open spec fn drain_slot(self, slot: usize) -> (ScanState, ScanAction) {
        if slot < PIPELINE_SLOTS {
            (
                ScanState { phase: ScanPhase::FinalDrain { slot }, ..self },
                ScanAction::Drain { slot, batch: self.occupants[slot as int] },
            )
        } else {
            (ScanState { phase: ScanPhase::Over, ..self }, ScanAction::Finish)
        }
    }

    /// Whether `event` answers the action that the driver is at. The number of a batch has to
    /// be one that can be counted.
    pub open spec fn answers(self, event: ScanEvent) -> bool {
        match event {
            ScanEvent::Received { batch } => {
                self.phase is Receive && (batch ==> self.index < usize::MAX)
            },
            ScanEvent::Done => !(self.phase is Receive),
            ScanEvent::Failed => true,
        }
    }

    /// What follows on `event`.
    pub open spec fn after(self, event: ScanEvent) -> (ScanState, ScanAction) {
        if self.phase is Over {
            (
                self,
                if self.failed {
                    ScanAction::Fail
                } else {
                    ScanAction::Finish
                },
            )
        } else if event is Failed {
            (ScanState { phase: ScanPhase::Over, failed: true, ..self }, ScanAction::Fail)
        } else {
            let slot = self.next_slot;
            match self.phase {
                ScanPhase::Receive => if event == (ScanEvent::Received { batch: true }) {
                    (
                        ScanState { phase: ScanPhase::Drain, ..self },
                        ScanAction::Drain { slot, batch: self.occupants[slot as int] },
                    )
                } else {
                    self.join_worker(0)
                },
                ScanPhase::Drain => (
                    ScanState {
                        phase: ScanPhase::Launch { drained: self.occupants[slot as int] },
                        occupants: self.occupants.update(slot as int, None),
                        ..self
                    },
                    ScanAction::Launch { batch: self.index, slot },
                ),
                ScanPhase::Launch { drained } => {
                    let launched = ScanState {
                        occupants: self.occupants.update(slot as int, Some(self.index)),
                        ..self
                    };
                    match drained {
                        Some(batch) => (
                            ScanState { phase: ScanPhase::Send, ..launched },
                            ScanAction::Send { batch },
                        ),
                        None => launched.next_batch(),
                    }
                },
                ScanPhase::Send => self.next_batch(),
                ScanPhase::JoinWorker { worker } => self.join_worker((worker + 1) as usize),
                ScanPhase::JoinScanner => self.drain_slot(0),
                ScanPhase::FinalDrain { slot } => match self.occupants[slot as int] {
                    Some(batch) => (
                        ScanState {
                            phase: ScanPhase::FinalSend { slot },
                            occupants: self.occupants.update(slot as int, None),
                            ..self
                        },
                        ScanAction::Send { batch },
                    ),
                    None => self.drain_slot((slot + 1) as usize),
                },
                ScanPhase::FinalSend { slot } => self.drain_slot((slot + 1) as usize),
                ScanPhase::Over => (self, ScanAction::Fail),
            }
        }
    }

    /// What every reachable state keeps.
    pub open spec fn wf(self) -> bool {
        &&& self.occupants.len() == PIPELINE_SLOTS
        &&& self.next_slot < PIPELINE_SLOTS
        &&& self.phase is Drain || self.phase is Launch || self.phase is Send ==> self.index
            < usize::MAX
        &&& self.phase matches ScanPhase::JoinWorker { worker } ==> worker < self.workers
        &&& self.phase matches ScanPhase::FinalDrain { slot } ==> slot < PIPELINE_SLOTS
        &&& self.phase matches ScanPhase::FinalSend { slot } ==> slot < PIPELINE_SLOTS
    }
}

/// The driver of the scan pipeline.
#[derive(Debug)]
pub struct ScanPipeline {
    workers: usize,
    index: usize,
    next_slot: usize,
    phase: ScanPhase,
    occupants: Vec<Option<usize>>,
    failed: bool,
}

impl View for ScanPipeline {
    type V = ScanState;

    closed spec fn view(&self) -> ScanState {
        ScanState {
            workers: self.workers,
            index: self.index,
            next_slot: self.next_slot,
            phase: self.phase,
            occupants: self.occupants@,
            failed: self.failed,
        }
    }
}

impl ScanPipeline {
    /// A driver behind `workers` prepare workers. The first thing to do is to receive a batch.
    pub fn start(workers: usize) -> (pipeline: ScanPipeline)
        ensures
            pipeline@ == ScanState::initial(workers),
            pipeline@.wf(),
    {
        let mut occupants: Vec<Option<usize>> = Vec::new();
        occupants.push(None);
        occupants.push(None);
        let pipeline = ScanPipeline {
            workers,
            index: 0,
            next_slot: 0,
            phase: ScanPhase::Receive,
            occupants,
            failed: false,
        };
        assert(pipeline@ =~= ScanState::initial(workers));
        pipeline
    }

    /// Whether another batch can be counted.
    pub fn can_receive(&self) -> (can: bool)
        ensures
            can == (self@.index < usize::MAX),
    {
        self.index < usize::MAX
    }

    fn next_batch(&mut self) -> (action: ScanAction)
        requires
            old(self)@.occupants.len() == PIPELINE_SLOTS,
            old(self)@.next_slot < PIPELINE_SLOTS,
            old(self)@.index < usize::MAX,
        ensures
            (final(self)@, action) == old(self)@.next_batch(),
            final(self)@.wf(),
    {
        self.index = self.index + 1;
        self.next_slot = (self.next_slot + 1) % PIPELINE_SLOTS;
        self.phase = ScanPhase::Receive;
        ScanAction::Receive
    }

    fn join_worker(&mut self, worker: usize) -> (action: ScanAction)
        requires
            old(self)@.occupants.len() == PIPELINE_SLOTS,
            old(self)@.next_slot < PIPELINE_SLOTS,
        ensures
            (final(self)@, action) == old(self)@.join_worker(worker),
            final(self)@.wf(),
    {
        if worker < self.workers {
            self.phase = ScanPhase::JoinWorker { worker };
            ScanAction::JoinWorker { worker }
        } else {
            self.phase = ScanPhase::JoinScanner;
            ScanAction::JoinScanner
        }
    }

    fn drain_slot(&mut self, slot: usize) -> (action: ScanAction)
        requires
            old(self)@.occupants.len() == PIPELINE_SLOTS,
            old(self)@.next_slot < PIPELINE_SLOTS,
        ensures
            (final(self)@, action) == old(self)@.drain_slot(slot),
            final(self)@.wf(),
    {
        if slot < PIPELINE_SLOTS {
            self.phase = ScanPhase::FinalDrain { slot };
            ScanAction::Drain { slot, batch: self.occupants[slot] }
        } else {
            self.phase = ScanPhase::Over;
            ScanAction::Finish
        }
    }

    /// Notes how the last action went, and says what to do next.
    pub fn step(&mut self, event: ScanEvent) -> (action: ScanAction)
        requires
            old(self)@.wf(),
            old(self)@.answers(event),
        ensures
            (final(self)@, action) == old(self)@.after(event),
            final(self)@.wf(),
    {
        if self.phase == ScanPhase::Over {
            return if self.failed {
                ScanAction::Fail
            } else {
                ScanAction::Finish
            };
        }
        if event == ScanEvent::Failed {
            self.phase = ScanPhase::Over;
            self.failed = true;
            return ScanAction::Fail;
        }
        let slot: usize = self.next_slot;
        match self.phase {
            ScanPhase::Receive => {
                if event == (ScanEvent::Received { batch: true }) {
                    self.phase = ScanPhase::Drain;
                    ScanAction::Drain { slot, batch: self.occupants[slot] }
                } else {
                    self.join_worker(0)
                }
            },
            ScanPhase::Drain => {
                self.phase = ScanPhase::Launch { drained: self.occupants[slot] };
                self.occupants.set(slot, None);
                ScanAction::Launch { batch: self.index, slot }
            },
            ScanPhase::Launch { drained } => {
                self.occupants.set(slot, Some(self.index));
                match drained {
                    Some(batch) => {
                        self.phase = ScanPhase::Send;
                        ScanAction::Send { batch }
                    },
                    None => self.next_batch(),
                }
            },
            ScanPhase::Send => self.next_batch(),
            ScanPhase::JoinWorker { worker } => self.join_worker(worker + 1),
            ScanPhase::JoinScanner => self.drain_slot(0),
            ScanPhase::FinalDrain { slot } => match self.occupants[slot] {
                Some(batch) => {
                    self.occupants.set(slot, None);
                    self.phase = ScanPhase::FinalSend { slot };
                    ScanAction::Send { batch }
                },
                None => self.drain_slot(slot + 1),
            },
            ScanPhase::FinalSend { slot } => self.drain_slot(slot + 1),
            ScanPhase::Over => ScanAction::Fail,
        }
    }
}

/// The state after `events`, and all actions up to there.
pub open spec fn run(workers: usize, events: Seq<ScanEvent>) -> (ScanState, Seq<ScanAction>)
    decreases events.len(),
{
    if events.len() == 0 {
        (ScanState::initial(workers), seq![ScanAction::Receive])
    } else {
        let (state, actions) = run(workers, events.drop_last());
        let (next, action) = state.after(events.last());
        (next, actions.push(action))
    }
}

/// Whether each of `events` answers the action before it.
pub open spec fn answers_all(workers: usize, events: Seq<ScanEvent>) -> bool
    decreases events.len(),
{
    events.len() == 0 || {
        &&& answers_all(workers, events.drop_last())
        &&& run(workers, events.drop_last()).0.answers(events.last())
    }
}

/// How many batches were received.
pub open spec fn received(events: Seq<ScanEvent>) -> nat
    decreases events.len(),
{
    if events.len() == 0 {
        0
    } else {
        received(events.drop_last()) + if events.last() == (ScanEvent::Received { batch: true }) {
            1nat
        } else {
            0
        }
    }
}

/// How often `batch` was launched.
pub open spec fn launched(actions: Seq<ScanAction>, batch: usize) -> nat
    decreases actions.len(),
{
    if actions.len() == 0 {
        0
    } else {
        launched(actions.drop_last(), batch) + match actions.last() {
            ScanAction::Launch { batch: b, .. } if b == batch => 1nat,
            _ => 0,
        }
    }
}

/// How often `batch` was sent.
pub open spec fn sent(actions: Seq<ScanAction>, batch: usize) -> nat
    decreases actions.len(),
{
    if actions.len() == 0 {
        0
    } else {
        sent(actions.drop_last(), batch) + match actions.last() {
            ScanAction::Send { batch: b } if b == batch => 1nat,
            _ => 0,
        }
    }
}

/// How often `worker` was waited for.
pub open spec fn joined(actions: Seq<ScanAction>, worker: usize) -> nat
    decreases actions.len(),
{
    if actions.len() == 0 {
        0
    } else {
        joined(actions.drop_last(), worker) + match actions.last() {
            ScanAction::JoinWorker { worker: w } if w == worker => 1nat,
            _ => 0,
        }
    }
}

impl ScanState {
    /// Whether batches are still received.
    pub open spec fn receiving(self) -> bool {
        self.phase is Receive || self.phase is Drain || self.phase is Launch || self.phase is Send
    }

    /// How often `batch` was launched and not handed on yet.
    pub open spec fn holds(self, batch: usize) -> nat {
        (if self.occupants[turn_of(batch) as int] == Some(batch) {
            1nat
        } else {
            0
        }) + match self.phase {
            ScanPhase::Launch { drained } => (if drained == Some(batch) {
                1nat
            } else {
                0
            }) + if self.index == batch {
                1nat
            } else {
                0
            },
            _ => 0,
        }
    }

    /// Where batches can be: transformed ones in their own slots.
    pub open spec fn in_order(self) -> bool {
        &&& self.next_slot == turn_of(self.index)
        &&& forall|k: int|
            0 <= k < PIPELINE_SLOTS ==> (#[trigger] self.occupants[k] matches Some(b) ==> turn_of(b)
                == k && b <= self.index && (self.phase is Send || b < self.index))
        &&& self.phase matches ScanPhase::Launch { drained: Some(b) } ==> b < self.index
        &&& self.phase is Launch ==> self.occupants[turn_of(self.index) as int] is None
        &&& self.phase matches ScanPhase::FinalDrain { slot } ==> forall|k: int|
            0 <= k < slot ==> #[trigger] self.occupants[k] is None
        &&& self.phase matches ScanPhase::FinalSend { slot } ==> forall|k: int|
            0 <= k <= slot ==> #[trigger] self.occupants[k] is None
        &&& self.phase is Over ==> forall|k: int|
            0 <= k < PIPELINE_SLOTS ==> #[trigger] self.occupants[k] is None
    }

    /// Whether the counts of actions fit the state, for `batch`.
    pub open spec fn accounts_for(self, actions: Seq<ScanAction>, batch: usize) -> bool {
        &&& launched(actions, batch) == sent(actions, batch) + self.holds(batch)
        &&& launched(actions, batch) == if batch < self.index || (batch == self.index && (
        self.phase is Launch || self.phase is Send)) {
            1nat
        } else {
            0
        }
    }

    /// Whether the workers that were waited for fit the state.
    pub open spec fn accounts_for_worker(self, actions: Seq<ScanAction>, worker: usize) -> bool {
        joined(actions, worker) == if worker < self.workers && (match self.phase {
            ScanPhase::JoinWorker { worker: at } => worker <= at,
            _ => !self.receiving(),
        }) {
            1nat
        } else {
            0
        }
    }

    /// What holds after every run in which nothing failed.
    pub open spec fn follows(self, actions: Seq<ScanAction>, events: Seq<ScanEvent>) -> bool {
        &&& self.wf()
        &&& actions.len() == events.len() + 1
        &&& self.phase is Over ==> actions.last() is Finish || actions.last() is Fail
        &&& actions.last() is Finish ==> self.phase is Over && !self.failed
        &&& self.failed ==> self.phase is Over
        &&& !self.failed ==> {
            &&& self.in_order()
            &&& received(events) == self.index + if self.phase is Drain || self.phase is Launch
                || self.phase is Send {
                1int
            } else {
                0
            }
            &&& forall|batch: usize| #[trigger] self.accounts_for(actions, batch)
            &&& forall|worker: usize| #[trigger] self.accounts_for_worker(actions, worker)
        }
    }
}

proof fn lemma_counts(actions: Seq<ScanAction>, action: ScanAction, number: usize)
    ensures
        launched(actions.push(action), number) == launched(actions, number) + match action {
            ScanAction::Launch { batch: b, .. } if b == number => 1nat,
            _ => 0,
        },
        sent(actions.push(action), number) == sent(actions, number) + match action {
            ScanAction::Send { batch: b } if b == number => 1nat,
            _ => 0,
        },
        joined(actions.push(action), number) == joined(actions, number) + match action {
            ScanAction::JoinWorker { worker: w } if w == number => 1nat,
            _ => 0,
        },
{
    assert(actions.push(action).drop_last() =~= actions);
}

proof fn lemma_step(
    state: ScanState,
    actions: Seq<ScanAction>,
    events: Seq<ScanEvent>,
    event: ScanEvent,
)
    requires
        state.follows(actions, events),
        state.answers(event),
    ensures
        state.after(event).0.follows(actions.push(state.after(event).1), events.push(event)),
{
    let (next, action) = state.after(event);
    let more = actions.push(action);
    assert(events.push(event).drop_last() =~= events);
    if !next.failed {
        assert(next.in_order());
        assert forall|batch: usize| #[trigger] next.accounts_for(more, batch) by {
            lemma_counts(actions, action, batch);
            assert(state.accounts_for(actions, batch));
            assert(state.occupants[state.next_slot as int] matches Some(b) ==> turn_of(b)
                == state.next_slot);
        }
        assert forall|worker: usize| #[trigger] next.accounts_for_worker(more, worker) by {
            lemma_counts(actions, action, worker);
            assert(state.accounts_for_worker(actions, worker));
        }
    }
}

proof fn lemma_run(workers: usize, events: Seq<ScanEvent>)
    requires
        answers_all(workers, events),
    ensures
        run(workers, events).0.follows(run(workers, events).1, events),
        run(workers, events).0.workers == workers,
    decreases events.len(),
{
    if events.len() == 0 {
        let (state, actions) = run(workers, events);
        assert(actions.drop_last() =~= Seq::empty());
        assert forall|batch: usize| #[trigger] state.accounts_for(actions, batch) by {
            reveal_with_fuel(launched, 2);
            reveal_with_fuel(sent, 2);
        }
        assert forall|worker: usize| #[trigger] state.accounts_for_worker(actions, worker) by {
            reveal_with_fuel(joined, 2);
        }
    } else {
        let before = events.drop_last();
        lemma_run(workers, before);
        lemma_step(run(workers, before).0, run(workers, before).1, before, events.last());
        assert(before.push(events.last()) =~= events);
    }
}

/// A run that finishes has launched every received batch once and has sent it once: no batch
/// is lost, and none is sent twice. No other batch was ever sent.
pub proof fn law_every_batch_is_sent_once(workers: usize, events: Seq<ScanEvent>, batch: usize)
    requires
        answers_all(workers, events),
        run(workers, events).1.last() is Finish,
    ensures
        launched(run(workers, events).1, batch) == if batch < received(events) {
            1nat
        } else {
            0
        },
        sent(run(workers, events).1, batch) == if batch < received(events) {
            1nat
        } else {
            0
        },
{
    lemma_run(workers, events);
    let (state, actions) = run(workers, events);
    assert(state.accounts_for(actions, batch));
    assert(state.occupants[turn_of(batch) as int] is None);
}

/// As long as nothing failed, no batch is ever launched or sent twice, and none is sent that
/// was not launched.
pub proof fn law_nothing_is_sent_twice(workers: usize, events: Seq<ScanEvent>, batch: usize)
    requires
        answers_all(workers, events),
        !run(workers, events).0.failed,
    ensures
        launched(run(workers, events).1, batch) <= 1,
        sent(run(workers, events).1, batch) <= launched(run(workers, events).1, batch),
{
    lemma_run(workers, events);
    assert(run(workers, events).0.accounts_for(run(workers, events).1, batch));
}

/// A run that finishes has waited for every prepare worker once.
pub proof fn law_every_worker_is_joined_once(
    workers: usize,
    events: Seq<ScanEvent>,
    worker: usize,
)
    requires
        answers_all(workers, events),
        run(workers, events).1.last() is Finish,
        worker < workers,
    ensures
        joined(run(workers, events).1, worker) == 1,
{
    lemma_run(workers, events);
    let (state, actions) = run(workers, events);
    assert(state.accounts_for_worker(actions, worker));
}

/// The batch that is in `slot` after the actions in `done`: the one that was launched there
/// last, unless the slot was drained since.
pub open spec fn content_of(done: Seq<ScanAction>, slot: usize) -> Option<usize>
    decreases done.len(),
{
    if done.len() == 0 {
        None
    } else {
        match done.last() {
            ScanAction::Launch { batch, slot: at } if at == slot => Some(batch),
            ScanAction::Drain { slot: at, .. } if at == slot => None,
            _ => content_of(done.drop_last(), slot),
        }
    }
}

/// The batch that was taken out of a slot by the actions in `done` and not sent since.
pub open spec fn in_hand(done: Seq<ScanAction>) -> Option<usize>
    decreases done.len(),
{
    if done.len() == 0 {
        None
    } else {
        match done.last() {
            ScanAction::Drain { batch, .. } => batch,
            ScanAction::Send { .. } => None,
            _ => in_hand(done.drop_last()),
        }
    }
}

/// How many workers were waited for.
pub open spec fn worker_joins(done: Seq<ScanAction>) -> nat
    decreases done.len(),
{
    if done.len() == 0 {
        0
    } else {
        worker_joins(done.drop_last()) + if done.last() is JoinWorker {
            1nat
        } else {
            0
        }
    }
}

/// How often the scanner was waited for.
pub open spec fn scanner_joins(done: Seq<ScanAction>) -> nat
    decreases done.len(),
{
    if done.len() == 0 {
        0
    } else {
        scanner_joins(done.drop_last()) + if done.last() is JoinScanner {
            1nat
        } else {
            0
        }
    }
}

/// Whether the last of `done` is to receive a batch.
pub open spec fn batch_was_awaited(done: Seq<ScanAction>) -> bool {
    done.len() > 0 && done.last() is Receive
}

/// How often a slot was drained without a batch waiting for it.
pub open spec fn final_drains(done: Seq<ScanAction>) -> nat
    decreases done.len(),
{
    if done.len() == 0 {
        0
    } else {
        final_drains(done.drop_last()) + if done.last() is Drain && !batch_was_awaited(
            done.drop_last(),
        ) {
            1nat
        } else {
            0
        }
    }
}

/// How often it was answered that there are no more batches.
pub open spec fn closings(events: Seq<ScanEvent>) -> nat
    decreases events.len(),
{
    if events.len() == 0 {
        0
    } else {
        closings(events.drop_last()) + if events.last() == (ScanEvent::Received { batch: false }) {
            1nat
        } else {
            0
        }
    }
}

/// Whether an action fits what was done before it.
pub open spec fn action_fits(
    workers: usize,
    done: Seq<ScanAction>,
    events: Seq<ScanEvent>,
    action: ScanAction,
) -> bool {
    match action {
        ScanAction::Receive => in_hand(done) is None && closings(events) == 0,
        ScanAction::Drain { slot, batch } => {
            &&& slot < PIPELINE_SLOTS
            &&& batch == content_of(done, slot)
            &&& in_hand(done) is None
            &&& if batch_was_awaited(done) {
                &&& events.last() == (ScanEvent::Received { batch: true })
                &&& slot == (received(events) - 1) % PIPELINE_SLOTS as int
            } else {
                &&& scanner_joins(done) == 1
                &&& slot == final_drains(done)
            }
        },
        ScanAction::Launch { batch, slot } => {
            &&& done.len() >= 2
            &&& done[done.len() - 2] is Receive
            &&& done.last() matches ScanAction::Drain { slot: at, .. } && at == slot
            &&& batch == received(events) - 1
            &&& content_of(done, slot) is None
        },
        ScanAction::Send { batch } => in_hand(done) == Some(batch),
        ScanAction::JoinWorker { worker } => {
            &&& worker < workers
            &&& worker == worker_joins(done)
            &&& scanner_joins(done) == 0
            &&& closings(events) == 1
            &&& in_hand(done) is None
        },
        ScanAction::JoinScanner => {
            &&& worker_joins(done) == workers
            &&& scanner_joins(done) == 0
            &&& closings(events) == 1
        },
        ScanAction::Finish => {
            &&& closings(events) == 1
            &&& worker_joins(done) == workers
            &&& scanner_joins(done) == 1
            &&& final_drains(done) == PIPELINE_SLOTS
            &&& in_hand(done) is None
            &&& forall|slot: usize|
                slot < PIPELINE_SLOTS ==> #[trigger] content_of(done, slot) is None
        },
        ScanAction::Fail => events.last() is Failed,
    }
}

impl ScanState {
    /// Whether the last action is the one that the phase stands for.
    pub open spec fn at_action(self, action: ScanAction) -> bool {
        match self.phase {
            ScanPhase::Receive => action is Receive,
            ScanPhase::Drain => action == (ScanAction::Drain {
                slot: self.next_slot,
                batch: self.occupants[self.next_slot as int],
            }),
            ScanPhase::Launch { .. } => action == (ScanAction::Launch {
                batch: self.index,
                slot: self.next_slot,
            }),
            ScanPhase::Send => action is Send,
            ScanPhase::JoinWorker { worker } => action == (ScanAction::JoinWorker { worker }),
            ScanPhase::JoinScanner => action is JoinScanner,
            ScanPhase::FinalDrain { slot } => action == (ScanAction::Drain {
                slot,
                batch: self.occupants[slot as int],
            }),
            ScanPhase::FinalSend { .. } => action is Send,
            ScanPhase::Over => action == if self.failed {
                ScanAction::Fail
            } else {
                ScanAction::Finish
            },
        }
    }

    /// What the state knows of the actions up to the last one, which is not answered yet.
    spec fn knows(self, actions: Seq<ScanAction>, events: Seq<ScanEvent>) -> bool {
        let done = actions.drop_last();
        let last = actions.last();
        &&& self.at_action(last)
        &&& !self.failed ==> {
            &&& forall|k: usize|
                k < PIPELINE_SLOTS ==> self.occupants[k as int] == #[trigger] content_of(done, k)
            &&& in_hand(done) == match self.phase {
                ScanPhase::Launch { drained } => drained,
                ScanPhase::Send => Some(last->Send_batch),
                ScanPhase::FinalSend { .. } => Some(last->Send_batch),
                _ => None,
            }
            &&& closings(events) == if self.receiving() {
                0nat
            } else {
                1
            }
            &&& worker_joins(actions) == match self.phase {
                ScanPhase::JoinWorker { worker } => worker + 1,
                _ => if self.receiving() {
                    0
                } else {
                    self.workers as int
                },
            }
            &&& scanner_joins(actions) == if self.receiving() || self.phase is JoinWorker {
                0nat
            } else {
                1
            }
            &&& final_drains(actions) == match self.phase {
                ScanPhase::FinalDrain { slot } => slot + 1,
                ScanPhase::FinalSend { slot } => slot + 1,
                ScanPhase::Over => PIPELINE_SLOTS as int,
                _ => 0,
            }
            &&& self.phase is Drain ==> batch_was_awaited(done)
            &&& self.phase is FinalDrain ==> !batch_was_awaited(done)
        }
    }
}

/// What is to be shown of one step.
spec fn goes_on_fitting(
    state: ScanState,
    actions: Seq<ScanAction>,
    events: Seq<ScanEvent>,
    event: ScanEvent,
) -> bool {
    let (next, action) = state.after(event);
    &&& !(state.phase is Over) ==> {
        &&& next.knows(actions.push(action), events.push(event))
        &&& action_fits(state.workers, actions, events.push(event), action)
        &&& action is Fail <==> event is Failed
    }
    &&& state.phase is Over ==> action == actions.last() && next == state
}

#[verifier::spinoff_prover]
#[verifier::rlimit(40)]
proof fn lemma_step_fits(
    state: ScanState,
    actions: Seq<ScanAction>,
    events: Seq<ScanEvent>,
    event: ScanEvent,
)
    requires
        state.follows(actions, events),
        state.phase is Over ==> actions.last() == if state.failed {
            ScanAction::Fail
        } else {
            ScanAction::Finish
        },
        !(state.phase is Over) ==> state.knows(actions, events),
        state.answers(event),
    ensures
        goes_on_fitting(state, actions, events, event),
{
    let (next, action) = state.after(event);
    let more = actions.push(action);
    let told = events.push(event);
    let done = actions.drop_last();
    assert(more.drop_last() =~= actions);
    assert(told.drop_last() =~= events);
    if !(state.phase is Over) {
        assert forall|k: usize| k < PIPELINE_SLOTS implies #[trigger] content_of(actions, k) == (
        match actions.last() {
            ScanAction::Launch { batch, slot: at } if at == k => Some(batch),
            ScanAction::Drain { slot: at, .. } if at == k => None,
            _ => state.occupants[k as int],
        }) by {
            assert(state.occupants[k as int] == content_of(done, k));
        }
    }
}

proof fn lemma_run_fits(workers: usize, events: Seq<ScanEvent>)
    requires
        answers_all(workers, events),
    ensures
        ({
            let (state, actions) = run(workers, events);
            &&& state.phase is Over ==> actions.last() == if state.failed {
                ScanAction::Fail
            } else {
                ScanAction::Finish
            }
            &&& !(state.phase is Over) ==> state.knows(actions, events)
        }),
    decreases events.len(),
{
    let (state, actions) = run(workers, events);
    if events.len() == 0 {
        assert(actions.drop_last() =~= Seq::empty());
        reveal_with_fuel(worker_joins, 2);
        reveal_with_fuel(scanner_joins, 2);
        reveal_with_fuel(final_drains, 2);
    } else {
        let before = events.drop_last();
        lemma_run(workers, before);
        lemma_run_fits(workers, before);
        lemma_step_fits(run(workers, before).0, run(workers, before).1, before, events.last());
        assert(before.push(events.last()) =~= events);
    }
}

/// Every action fits what was done before it. When a batch was received, the slot whose turn it
/// is is drained, and the batch is launched there, in a slot that is empty. A slot is drained of
/// the very batch that was launched in it last and not drained since, and that batch is sent
/// before anything else is received or taken out. When there are no more batches, the workers
/// are waited for in turn, and then the scanner, and then every slot is drained once more in
/// turn. A run finishes with all of that done, every slot empty and nothing in hand. It fails
/// when something failed, and on nothing else.
pub proof fn law_actions_fit_what_was_done(workers: usize, events: Seq<ScanEvent>)
    requires
        answers_all(workers, events),
    ensures
        ({
            let actions = run(workers, events).1;
            let done = actions.drop_last();
            &&& actions.len() == events.len() + 1
            &&& if done.len() > 0 && (done.last() is Finish || done.last() is Fail) {
                actions.last() == done.last()
            } else {
                &&& action_fits(workers, done, events, actions.last())
                &&& events.len() > 0 && events.last() is Failed ==> actions.last() is Fail
            }
        }),
{
    lemma_run(workers, events);
    lemma_run_fits(workers, events);
    let (state, actions) = run(workers, events);
    if events.len() == 0 {
        assert(actions.drop_last() =~= Seq::empty());
    } else {
        let before = events.drop_last();
        lemma_run(workers, before);
        lemma_run_fits(workers, before);
        let (prior, earlier) = run(workers, before);
        lemma_step_fits(prior, earlier, before, events.last());
        assert(before.push(events.last()) =~= events);
        assert(actions.drop_last() =~= earlier);
    }
}

} // verus!

//! A whole build: training, then the artifact.

use crate::params::{
    IvfPqBuildParams, PartitionArtifactBuildOutput, TrainedIvfPqIndex, VectorIndexBuildOutput,
    VectorIndexBuildParams, VectorIndexKind,
};
use crate::settings::gds_read_enabled_from_env;
use crate::stats::{counts_add, spans_add, Nanos};
use vstd::prelude::*;

verus! {

/// Builds vector indexes on the GPU.
#[derive(Debug, Clone, Copy)]
pub struct CuvsVectorBuildBackend;

impl CuvsVectorBuildBackend {
    /// What training is asked for.
    pub fn training_params<'a>(&self, params: &'a VectorIndexBuildParams) -> (training: &'a
        IvfPqBuildParams)
        ensures
            params.kind == VectorIndexKind::IvfPq(*training),
    {
        match &params.kind {
            VectorIndexKind::IvfPq(training) => training,
        }
    }

    /// What a build brings, once the model is trained and the artifact's files are written.
    pub fn finish<H>(
        &self,
        params: VectorIndexBuildParams,
        trained: TrainedIvfPqIndex<H>,
        files: Vec<String>,
    ) -> (output: VectorIndexBuildOutput)
        ensures
            output matches VectorIndexBuildOutput::PartitionArtifact(artifact) && {
                &&& artifact.artifact_uri == params.artifact_uri
                &&& artifact.files == files
                &&& artifact.ivf_centroids == trained.ivf_centroids
                &&& artifact.pq_codebook == trained.pq_codebook
            },
    {
        match params.kind {
            VectorIndexKind::IvfPq(_) => VectorIndexBuildOutput::PartitionArtifact(
                PartitionArtifactBuildOutput {
                    artifact_uri: params.artifact_uri,
                    files,
                    ivf_centroids: trained.ivf_centroids,
                    pq_codebook: trained.pq_codebook,
                },
            ),
        }
    }
}

/// How batches get from the dataset to the GPU.
#[derive(Debug, Clone, Copy, PartialEq, Eq, Structural)]
pub enum ReadPath {
    /// Scanned, decoded and copied.
    Scan,
    /// Read from the data files straight into device memory.
    Gds,
}

/// What to do next while an artifact is built. The artifact writer runs beside all of it.
#[derive(Debug)]
pub enum AssignAction<E> {
    /// Start to capture a profile.
    StartProfiler,
    /// Transform all batches and hand them to the writer.
    Transform(ReadPath),
    /// Close the queue to the writer and stop to capture a profile.
    StopProfiler,
    /// Wait for the writer to finish the artifact.
    AwaitWriter,
    /// Stop the writer; the build failed with this error.
    AbortWriter(E),
    /// The artifact has these files.
    Finish(Vec<String>),
    /// The writer failed with this error.
    Fail(E),
}

/// How the last action went.
#[derive(Debug)]
pub enum AssignEvent<E> {
    Done(Result<(), E>),
    Written(Result<Vec<String>, E>),
}

/// Where the build of an artifact is.
#[derive(Debug)]
pub enum AssignPhase<E> {
    StartProfiler,
    Transform,
    /// The transform's outcome is kept while the profiler is stopped.
    StopProfiler(Result<(), E>),
    Write,
    Over,
}

/// The build of an artifact from a trained model.
#[derive(Debug)]
pub struct AssignRun<E> {
    pub path: ReadPath,
    pub phase: AssignPhase<E>,
}

impl<E> AssignRun<E> {
    /// Whether `event` answers the action that the build is at.
    pub open spec fn answers(&self, event: AssignEvent<E>) -> bool {
        match self.phase {
            AssignPhase::Write => event is Written,
            AssignPhase::Over => false,
            _ => event is Done,
        }
    }

    /// What follows on `event`. A profiler that cannot be started stops the build, one that
    /// cannot be stopped does not.
    pub open spec fn after(self, event: AssignEvent<E>) -> (AssignRun<E>, AssignAction<E>) {
        let path = self.path;
        match (self.phase, event) {
            (AssignPhase::StartProfiler, AssignEvent::Done(Ok(()))) => (
                AssignRun { path, phase: AssignPhase::Transform },
                AssignAction::Transform(path),
            ),
            (AssignPhase::StartProfiler, AssignEvent::Done(Err(error))) => (
                AssignRun { path, phase: AssignPhase::Over },
                AssignAction::AbortWriter(error),
            ),
            (AssignPhase::Transform, AssignEvent::Done(outcome)) => (
                AssignRun { path, phase: AssignPhase::StopProfiler(outcome) },
                AssignAction::StopProfiler,
            ),
            (AssignPhase::StopProfiler(Ok(())), AssignEvent::Done(_)) => (
                AssignRun { path, phase: AssignPhase::Write },
                AssignAction::AwaitWriter,
            ),
            (AssignPhase::StopProfiler(Err(error)), AssignEvent::Done(_)) => (
                AssignRun { path, phase: AssignPhase::Over },
                AssignAction::AbortWriter(error),
            ),
            (AssignPhase::Write, AssignEvent::Written(Ok(files))) => (
                AssignRun { path, phase: AssignPhase::Over },
                AssignAction::Finish(files),
            ),
            (AssignPhase::Write, AssignEvent::Written(Err(error))) => (
                AssignRun { path, phase: AssignPhase::Over },
                AssignAction::Fail(error),
            ),
            _ => (self, AssignAction::StopProfiler),
        }
    }

    /// Starts with the profiler. `gds_value` is the setting that picks the path.
    pub fn start(gds_value: Option<&str>) -> (started: (AssignRun<E>, AssignAction<E>))
        ensures
            started.0.phase is StartProfiler,
            started.0.path == if gds_value matches Some(text) && text@ == "1"@ {
                ReadPath::Gds
            } else {
                ReadPath::Scan
            },
            started.1 is StartProfiler,
    {
        let path = if gds_read_enabled_from_env(gds_value) {
            ReadPath::Gds
        } else {
            ReadPath::Scan
        };
        (AssignRun { path, phase: AssignPhase::StartProfiler }, AssignAction::StartProfiler)
    }

    /// Notes how the last action went, and says what to do next.
    pub fn step(self, event: AssignEvent<E>) -> (next: (AssignRun<E>, AssignAction<E>))
        requires
            self.answers(event),
        ensures
            next == self.after(event),
    {
        let path = self.path;
        match (self.phase, event) {
            (AssignPhase::StartProfiler, AssignEvent::Done(Ok(()))) => (
                AssignRun { path, phase: AssignPhase::Transform },
                AssignAction::Transform(path),
            ),
            (AssignPhase::StartProfiler, AssignEvent::Done(Err(error))) => (
                AssignRun { path, phase: AssignPhase::Over },
                AssignAction::AbortWriter(error),
            ),
            (AssignPhase::Transform, AssignEvent::Done(outcome)) => (
                AssignRun { path, phase: AssignPhase::StopProfiler(outcome) },
                AssignAction::StopProfiler,
            ),
            (AssignPhase::StopProfiler(Ok(())), AssignEvent::Done(_)) => (
                AssignRun { path, phase: AssignPhase::Write },
                AssignAction::AwaitWriter,
            ),
            (AssignPhase::StopProfiler(Err(error)), AssignEvent::Done(_)) => (
                AssignRun { path, phase: AssignPhase::Over },
                AssignAction::AbortWriter(error),
            ),
            (AssignPhase::Write, AssignEvent::Written(Ok(files))) => (
                AssignRun { path, phase: AssignPhase::Over },
                AssignAction::Finish(files),
            ),
            (AssignPhase::Write, AssignEvent::Written(Err(error))) => (
                AssignRun { path, phase: AssignPhase::Over },
                AssignAction::Fail(error),
            ),
            (phase, _) => (AssignRun { path, phase }, AssignAction::StopProfiler),
        }
    }
}

/// Where a build that started on `path` is after `events`, and what it does then.
pub open spec fn assigned<E>(path: ReadPath, events: Seq<AssignEvent<E>>) -> (
    AssignRun<E>,
    AssignAction<E>,
)
    decreases events.len(),
{
    if events.len() == 0 {
        (AssignRun { path, phase: AssignPhase::StartProfiler }, AssignAction::StartProfiler)
    } else {
        assigned(path, events.drop_last()).0.after(events.last())
    }
}

/// Whether each of `events` answers the action before it.
pub open spec fn answers_all<E>(path: ReadPath, events: Seq<AssignEvent<E>>) -> bool
    decreases events.len(),
{
    events.len() == 0 || {
        &&& answers_all(path, events.drop_last())
        &&& assigned(path, events.drop_last()).0.answers(events.last())
    }
}

/// Whether an action was done without an error.
pub open spec fn went_well<E>(event: AssignEvent<E>) -> bool {
    event matches AssignEvent::Done(Ok(_))
}

/// An artifact is finished only where the transform went well and the writer did too, and
/// with the writer's files; a transform that failed stops the writer with its error, so no
/// artifact is finished that lacks rows. The profiler is stopped either way.
pub proof fn law_only_whole_artifacts_are_finished<E>(path: ReadPath, events: Seq<AssignEvent<E>>)
    requires
        answers_all(path, events),
    ensures
        assigned(path, events).1 matches AssignAction::Finish(files) ==> {
            &&& events.len() == 4
            &&& went_well(events[0])
            &&& went_well(events[1])
            &&& events[3] == AssignEvent::<E>::Written(Ok(files))
        },
        events.len() >= 2 && went_well(events[0]) ==> (events[1] matches
            AssignEvent::Done(Err(error)) ==> {
            &&& events.len() == 2 ==> assigned(path, events).1 is StopProfiler
            &&& events.len() == 3 ==> assigned(path, events).1 == AssignAction::AbortWriter(error)
            &&& events.len() <= 3
        }),
        events.len() <= 4,
{
    reveal_with_fuel(answers_all, 3);
    lemma_phases(path, events);
    if events.len() > 0 {
        let before = events.drop_last();
        lemma_phases(path, before);
        assert(forall|i: int| 0 <= i < before.len() ==> before[i] == #[trigger] events[i]);
        if before.len() > 0 {
            let earlier = before.drop_last();
            lemma_phases(path, earlier);
            assert(forall|i: int| 0 <= i < earlier.len() ==> earlier[i] == #[trigger] events[i]);
        }
    }
}

proof fn lemma_phases<E>(path: ReadPath, events: Seq<AssignEvent<E>>)
    requires
        answers_all(path, events),
    ensures
        ({
            match assigned(path, events).0.phase {
                AssignPhase::StartProfiler => events.len() == 0,
                AssignPhase::Transform => events.len() == 1 && went_well(events[0]),
                AssignPhase::StopProfiler(outcome) => {
                    &&& events.len() == 2
                    &&& went_well(events[0])
                    &&& events[1] == AssignEvent::Done(outcome)
                },
                AssignPhase::Write => events.len() == 3 && went_well(events[0]) && went_well(events[1]),
                AssignPhase::Over => {
                    ||| events.len() == 1 && !went_well(events[0])
                    ||| events.len() == 3 && went_well(events[0]) && !went_well(events[1])
                    ||| events.len() == 4 && went_well(events[0]) && went_well(events[1])
                },
            }
        }),
    decreases events.len(),
{
    if events.len() > 0 {
        let before = events.drop_last();
        lemma_phases(path, before);
        assert(forall|i: int| 0 <= i < before.len() ==> before[i] == #[trigger] events[i]);
    }
}

/// What a build does after each answer: it starts the profiler, transforms on its own path,
/// stops the profiler, waits for the writer, and is done with the writer's files. An error at
/// the start or in the transform stops the writer and is the build's error, and the writer's
/// own error is too. What the build is at decides what answers it, and an ended build takes no
/// answer.
pub proof fn law_build_goes_through_its_steps<E>(
    path: ReadPath,
    events: Seq<AssignEvent<E>>,
    event: AssignEvent<E>,
)
    requires
        answers_all(path, events),
    ensures
        ({
            let action = assigned(path, events).1;
            &&& events.len() == 0 ==> action is StartProfiler
            &&& events.len() == 1 ==> match events[0] {
                AssignEvent::Done(Ok(_)) => action == AssignAction::<E>::Transform(path),
                AssignEvent::Done(Err(error)) => action == AssignAction::AbortWriter(error),
                AssignEvent::Written(_) => false,
            }
            &&& events.len() == 2 ==> action is StopProfiler && went_well(events[0])
            &&& events.len() == 3 ==> match events[1] {
                AssignEvent::Done(Ok(_)) => action is AwaitWriter,
                AssignEvent::Done(Err(error)) => action == AssignAction::AbortWriter(error),
                AssignEvent::Written(_) => false,
            }
            &&& events.len() == 4 ==> match events[3] {
                AssignEvent::Written(Ok(files)) => action == AssignAction::<E>::Finish(files),
                AssignEvent::Written(Err(error)) => action == AssignAction::Fail(error),
                AssignEvent::Done(_) => false,
            }
            &&& assigned(path, events).0.answers(event) <==> match action {
                AssignAction::StartProfiler => event is Done,
                AssignAction::Transform(_) => event is Done,
                AssignAction::StopProfiler => event is Done,
                AssignAction::AwaitWriter => event is Written,
                AssignAction::AbortWriter(_) => false,
                AssignAction::Finish(_) => false,
                AssignAction::Fail(_) => false,
            }
        }),
{
    law_only_whole_artifacts_are_finished(path, events);
    lemma_phases(path, events);
    lemma_path_stays(path, events);
    if events.len() > 0 {
        let before = events.drop_last();
        lemma_phases(path, before);
        lemma_path_stays(path, before);
        assert(forall|i: int| 0 <= i < before.len() ==> before[i] == #[trigger] events[i]);
    }
}

proof fn lemma_path_stays<E>(path: ReadPath, events: Seq<AssignEvent<E>>)
    ensures
        assigned(path, events).0.path == path,
    decreases events.len(),
{
    if events.len() > 0 {
        lemma_path_stays(path, events.drop_last());
    }
}

/// How long stopping the profiler may take before it is worth a word: it may write a trace.
pub const PROFILER_STOP_NANOS: u128 = 100_000_000;

/// Whether stopping the profiler took long enough to be worth a word.
pub fn profiler_stop_is_slow(elapsed: Nanos) -> (slow: bool)
    ensures
        slow == (elapsed > PROFILER_STOP_NANOS),
        slow == (elapsed > 100 * 1000 * 1000),
{
    elapsed > PROFILER_STOP_NANOS
}

/// What the artifact writer counted.
#[derive(Debug, Clone, Copy)]
pub struct AppendStats {
    pub batches: usize,
    pub rows: usize,
    pub recv_wait: Nanos,
    pub append: Nanos,
}

impl Default for AppendStats {
    fn default() -> (stats: Self)
        ensures
            stats == (AppendStats { batches: 0, rows: 0, recv_wait: 0, append: 0 }),
    {
        AppendStats { batches: 0, rows: 0, recv_wait: 0, append: 0 }
    }
}

impl AppendStats {
    /// Adds the time that a batch was waited for.
    pub fn record_wait(&mut self, wait: Nanos)
        requires
            spans_add(old(self).recv_wait, wait),
        ensures
            *final(self) == (AppendStats {
                recv_wait: (old(self).recv_wait + wait) as u128,
                ..*old(self)
            }),
    {
        self.recv_wait = self.recv_wait + wait;
    }

    /// Counts a batch that came.
    pub fn record_batch(&mut self, rows: usize)
        requires
            counts_add(old(self).batches, 1),
            counts_add(old(self).rows, rows),
        ensures
            *final(self) == (AppendStats {
                batches: (old(self).batches + 1) as usize,
                rows: (old(self).rows + rows) as usize,
                ..*old(self)
            }),
    {
        self.batches = self.batches + 1;
        self.rows = self.rows + rows;
    }

    /// Adds the time that a batch took to be written.
    pub fn record_append(&mut self, append: Nanos)
        requires
            spans_add(old(self).append, append),
        ensures
            *final(self) == (AppendStats {
                append: (old(self).append + append) as u128,
                ..*old(self)
            }),
    {
        self.append = self.append + append;
    }
}

/// What the artifact writer does next.
#[derive(Debug)]
pub enum AppendAction<E> {
    /// Wait for the next batch.
    Receive,
    /// Write the batch that came.
    Append,
    /// Finish the artifact: there are no more batches.
    Finish,
    /// The artifact has these files.
    Done(Vec<String>),
    /// Give up with this error.
    Fail(E),
}

/// How the writer's last action went.
#[derive(Debug)]
pub enum AppendEvent<E> {
    /// A batch came, or the error of whoever should have sent one.
    Received(Result<(), E>),
    /// Every batch has come.
    Closed,
    Appended(Result<(), E>),
    Finished(Result<Vec<String>, E>),
}

/// What the artifact writer is at.
#[derive(Debug, Clone, Copy, PartialEq, Eq, Structural)]
pub enum AppendPhase {
    Receive,
    Append,
    Finish,
    Over,
}

/// The artifact writer: writes batches as they come, and then finishes the artifact.
#[derive(Debug, Clone, Copy)]
pub struct AppendRun {
    pub phase: AppendPhase,
}

impl AppendRun {
    /// Whether `event` answers the action that the writer is at.
    pub open spec fn answers<E>(self, event: AppendEvent<E>) -> bool {
        match self.phase {
            AppendPhase::Receive => event is Received || event is Closed,
            AppendPhase::Append => event is Appended,
            AppendPhase::Finish => event is Finished,
            AppendPhase::Over => false,
        }
    }

    /// What follows on `event`. Any error ends the writing, with the artifact left unfinished.
    pub open spec fn after<E>(self, event: AppendEvent<E>) -> (AppendRun, AppendAction<E>) {
        match event {
            AppendEvent::Received(Ok(())) => (
                AppendRun { phase: AppendPhase::Append },
                AppendAction::Append,
            ),
            AppendEvent::Closed => (AppendRun { phase: AppendPhase::Finish }, AppendAction::Finish),
            AppendEvent::Appended(Ok(())) => (
                AppendRun { phase: AppendPhase::Receive },
                AppendAction::Receive,
            ),
            AppendEvent::Finished(Ok(files)) => (
                AppendRun { phase: AppendPhase::Over },
                AppendAction::Done(files),
            ),
            AppendEvent::Received(Err(error))
            | AppendEvent::Appended(Err(error))
            | AppendEvent::Finished(Err(error)) => (
                AppendRun { phase: AppendPhase::Over },
                AppendAction::Fail(error),
            ),
        }
    }

    /// Starts with waiting for a batch.
    pub fn start<E>() -> (started: (AppendRun, AppendAction<E>))
        ensures
            started == (AppendRun { phase: AppendPhase::Receive }, AppendAction::<E>::Receive),
    {
        (AppendRun { phase: AppendPhase::Receive }, AppendAction::Receive)
    }

    /// Notes how the last action went, and says what to do next.
    pub fn step<E>(self, event: AppendEvent<E>) -> (next: (AppendRun, AppendAction<E>))
        requires
            self.answers(event),
        ensures
            next == self.after(event),
    {
        match event {
            AppendEvent::Received(Ok(())) => (
                AppendRun { phase: AppendPhase::Append },
                AppendAction::Append,
            ),
            AppendEvent::Closed => (AppendRun { phase: AppendPhase::Finish }, AppendAction::Finish),
            AppendEvent::Appended(Ok(())) => (
                AppendRun { phase: AppendPhase::Receive },
                AppendAction::Receive,
            ),
            AppendEvent::Finished(Ok(files)) => (
                AppendRun { phase: AppendPhase::Over },
                AppendAction::Done(files),
            ),
            AppendEvent::Received(Err(error)) => (
                AppendRun { phase: AppendPhase::Over },
                AppendAction::Fail(error),
            ),
            AppendEvent::Appended(Err(error)) => (
                AppendRun { phase: AppendPhase::Over },
                AppendAction::Fail(error),
            ),
            AppendEvent::Finished(Err(error)) => (
                AppendRun { phase: AppendPhase::Over },
                AppendAction::Fail(error),
            ),
        }
    }
}

/// Where the writer is after `events`, and what it does then.
pub open spec fn appended<E>(events: Seq<AppendEvent<E>>) -> (AppendRun, AppendAction<E>)
    decreases events.len(),
{
    if events.len() == 0 {
        (AppendRun { phase: AppendPhase::Receive }, AppendAction::Receive)
    } else {
        appended(events.drop_last()).0.after(events.last())
    }
}

/// Whether each of `events` answers the writer's action before it.
pub open spec fn answers_writer<E>(events: Seq<AppendEvent<E>>) -> bool
    decreases events.len(),
{
    events.len() == 0 || {
        &&& answers_writer(events.drop_last())
        &&& appended(events.drop_last()).0.answers(events.last())
    }
}

/// Whether the writer goes on as before on `event`: a batch came, or was written.
pub open spec fn goes_on<E>(event: AppendEvent<E>) -> bool {
    event matches AppendEvent::Received(Ok(_)) || event matches AppendEvent::Appended(Ok(_))
}

/// The artifact is finished only after the last batch, with every batch before it written and
/// no error; it is finished no more than once; and it is done only with the files that finishing
/// it brought. An error ends the writing, and so does finishing.
pub proof fn law_artifact_is_finished_once_after_the_last_batch<E>(
    events: Seq<AppendEvent<E>>,
    earlier: int,
)
    requires
        answers_writer(events),
        0 <= earlier < events.len(),
    ensures
        appended(events).1 is Finish ==> {
            &&& events.last() is Closed
            &&& forall|i: int| 0 <= i < events.len() - 1 ==> goes_on(#[trigger] events[i])
            &&& forall|i: int|
                0 <= i < events.len() - 1 && #[trigger] events[i] is Received ==> i + 1
                    < events.len() - 1 && events[i + 1] is Appended
            &&& !(appended(events.take(earlier)).1 is Finish)
        },
        appended(events).1 matches AppendAction::Done(files) ==> {
            &&& events.last() == AppendEvent::<E>::Finished(Ok(files))
            &&& appended(events.drop_last()).1 is Finish
        },
        !goes_on(events[earlier]) ==> events[earlier] is Closed && earlier == events.len() - 2
            || earlier == events.len() - 1,
{
    lemma_writer_phases(events);
    lemma_prefix_answers(events, earlier);
    lemma_writer_phases(events.take(earlier));
    lemma_writer_phases(events.drop_last());
    if appended(events).1 is Finish {
        if appended(events.take(earlier)).1 is Finish {
            assert(events.take(earlier).last() == events[earlier - 1]);
            assert(goes_on(events[earlier - 1]));
        }
    }
}

proof fn lemma_prefix_answers<E>(events: Seq<AppendEvent<E>>, len: int)
    requires
        answers_writer(events),
        0 <= len <= events.len(),
    ensures
        answers_writer(events.take(len)),
    decreases events.len(),
{
    if len == events.len() {
        assert(events.take(len) =~= events);
    } else {
        assert(events.drop_last().take(len) =~= events.take(len));
        lemma_prefix_answers(events.drop_last(), len);
    }
}

proof fn lemma_writer_phases<E>(events: Seq<AppendEvent<E>>)
    requires
        answers_writer(events),
    ensures
        forall|i: int| 0 <= i < events.len() - 2 ==> goes_on(#[trigger] events[i]),
        forall|i: int|
            0 <= i < events.len() - 1 && #[trigger] events[i] is Received ==> events[i
                + 1] is Appended,
        match appended(events).0.phase {
            AppendPhase::Receive => {
                &&& appended(events).1 is Receive
                &&& forall|i: int| 0 <= i < events.len() ==> goes_on(#[trigger] events[i])
                &&& events.len() > 0 ==> events.last() is Appended
            },
            AppendPhase::Append => {
                &&& appended(events).1 is Append
                &&& events.len() > 0
                &&& forall|i: int| 0 <= i < events.len() ==> goes_on(#[trigger] events[i])
                &&& events.last() is Received
            },
            AppendPhase::Finish => {
                &&& appended(events).1 is Finish
                &&& events.len() > 0
                &&& events.last() is Closed
                &&& forall|i: int| 0 <= i < events.len() - 1 ==> goes_on(#[trigger] events[i])
                &&& events.len() > 1 ==> events[events.len() - 2] is Appended
            },
            AppendPhase::Over => {
                &&& !(appended(events).1 is Finish)
                &&& events.len() > 0
                &&& !goes_on(events.last())
                &&& events.len() > 1 ==> goes_on(events[events.len() - 2])
                    || events[events.len() - 2] is Closed
            },
        },
    decreases events.len(),
{
    if events.len() > 0 {
        let before = events.drop_last();
        lemma_writer_phases(before);
        assert(forall|i: int| 0 <= i < before.len() ==> before[i] == #[trigger] events[i]);
    }
}

/// What the writer does after each answer: it writes a batch that came, waits for the next one
/// once a batch is written, finishes once there are no more, is done with the files that
/// finishing brought, and gives up with any error. What it is at decides what answers it, and
/// once it is over nothing does.
pub proof fn law_writer_goes_through_its_steps<E>(
    events: Seq<AppendEvent<E>>,
    event: AppendEvent<E>,
)
    requires
        answers_writer(events),
    ensures
        appended(Seq::<AppendEvent<E>>::empty()).1 is Receive,
        match event {
            AppendEvent::Received(Ok(_)) => appended(events.push(event)).1 is Append,
            AppendEvent::Closed => appended(events.push(event)).1 is Finish,
            AppendEvent::Appended(Ok(_)) => appended(events.push(event)).1 is Receive,
            AppendEvent::Finished(Ok(files)) => appended(events.push(event)).1
                == AppendAction::<E>::Done(files),
            AppendEvent::Received(Err(error)) => appended(events.push(event)).1
                == AppendAction::Fail(error),
            AppendEvent::Appended(Err(error)) => appended(events.push(event)).1
                == AppendAction::Fail(error),
            AppendEvent::Finished(Err(error)) => appended(events.push(event)).1
                == AppendAction::Fail(error),
        },
        answers_writer(events.push(event)) <==> match appended(events).1 {
            AppendAction::Receive => event is Received || event is Closed,
            AppendAction::Append => event is Appended,
            AppendAction::Finish => event is Finished,
            AppendAction::Done(_) => false,
            AppendAction::Fail(_) => false,
        },
{
    lemma_writer_phases(events);
    assert(events.push(event).drop_last() =~= events);
    if events.len() > 0 {
        lemma_writer_phases(events.drop_last());
    }
}

} // verus!

//! The course of a whole batch: discovery, the trial run of the tool, the
//! output directory, the video phase, the image phase, the report.
//!
//! A [`Batch`] decides and its caller acts, as a
//! [`ConversionRun`](crate::conversion::ConversionRun) does for one job. The
//! tool is tried before anything is written, the videos are converted before
//! the images, and a phase that failed ends the batch once all of its jobs have
//! ended.
use crate::catalog::{views_of, AssetKind, ConversionJob, DiscoveryError, JobView};
use crate::conversion::{check_ffmpeg_availability, tool_succeeded, ToolRun};
use crate::outcome::{
    first_failure, lemma_first_failure_in_range, summarize, summary_of, FailureReason,
    JobOutcome, PhaseFailure, PhaseSummary,
};
use crate::path::{directory_of, text_of};
use crate::phase::{initial_phase, Phase};
use crate::text::join_texts;
use crate::settings::{ConfigError, ConversionSettings};
use vstd::prelude::*;

verus! {

/// Why a batch failed.
#[derive(Clone, Copy, Debug, PartialEq, Eq, Structural)]
pub enum BatchError {
    /// No catalog could be built.
    Discovery(DiscoveryError),
    /// The codec tool is missing or does not work.
    ToolUnavailable,
    /// The output directory could not be created.
    OutputDirectory,
    /// A job of this phase failed; `failure` names the first that did, by its
    /// place among the jobs of the phase.
    Phase { kind: AssetKind, failure: PhaseFailure },
}

/// How a batch ended.
#[derive(Clone, Copy, Debug, PartialEq, Eq, Structural)]
pub enum BatchOutcome {
    /// Nothing under the input root is converted: no fault.
    NothingFound,
    /// The batch was a dry run and has listed its catalog.
    Listed,
    /// Every job succeeded.
    Completed,
    Failed(BatchError),
}

/// What a batch waits for.
#[derive(Clone, Copy, Debug, PartialEq, Eq, Structural)]
pub enum BatchState {
    /// For the catalog.
    Discovering,
    /// For the trial run of the tool.
    Probing,
    /// For the output directory.
    PreparingOutput,
    /// For the end of the phase of this kind.
    Converting(AssetKind),
    /// For nothing: it has ended.
    Finished(BatchOutcome),
}

/// What a batch asks of its caller.
#[derive(Clone, Copy, Debug, PartialEq, Eq, Structural)]
pub enum BatchAction {
    /// Nothing: the report did not fit the state of the batch and was ignored.
    Nothing,
    /// Say that nothing was found to convert; the batch has ended.
    ReportNothingFound,
    /// Show the catalog; the batch has ended.
    ListJobs,
    /// Try the tool.
    ProbeTool,
    /// Create the output directory.
    CreateOutputDirectory,
    /// Run all jobs of this kind, then report how each ended.
    RunPhase(AssetKind),
    /// Show what was saved; the batch has ended.
    ReportSavings,
    /// Report this error; the batch has ended.
    Fail(BatchError),
}

/// What the caller reports to a batch.
#[derive(Debug)]
pub enum BatchEvent {
    /// The catalog, or why there is none.
    Discovered(Result<Vec<ConversionJob>, DiscoveryError>),
    /// How the trial run of the tool ended.
    ToolProbed(ToolRun),
    /// Whether the output directory is there.
    OutputDirectoryCreated { ok: bool },
    /// How each job of the current phase ended, in the order of the jobs of
    /// the phase.
    PhaseEnded(Vec<JobOutcome>),
}

/// A report as contracts speak of it.
pub enum BatchEventView {
    Discovered(Result<Seq<JobView>, DiscoveryError>),
    ToolProbed(ToolRun),
    OutputDirectoryCreated { ok: bool },
    PhaseEnded(Seq<JobOutcome>),
}

impl View for BatchEvent {
    type V = BatchEventView;

    open spec fn view(&self) -> BatchEventView {
        match self {
            BatchEvent::Discovered(Ok(jobs)) => BatchEventView::Discovered(Ok(views_of(jobs@))),
            BatchEvent::Discovered(Err(e)) => BatchEventView::Discovered(Err(*e)),
            BatchEvent::ToolProbed(run) => BatchEventView::ToolProbed(*run),
            BatchEvent::OutputDirectoryCreated { ok } => BatchEventView::OutputDirectoryCreated {
                ok: *ok,
            },
            BatchEvent::PhaseEnded(outcomes) => BatchEventView::PhaseEnded(outcomes@),
        }
    }
}

/// A batch as contracts speak of it.
pub struct BatchModel {
    pub dry_run: bool,
    pub jobs: Seq<JobView>,
    pub state: BatchState,
    pub video_summary: Option<PhaseSummary>,
    pub image_summary: Option<PhaseSummary>,
}

/// The places in the catalog of the jobs of one kind, in ascending order.
pub open spec fn indices_of_kind(jobs: Seq<JobView>, kind: AssetKind) -> Seq<usize>
    decreases jobs.len(),
{
    if jobs.len() == 0 {
        Seq::empty()
    } else {
        let front = indices_of_kind(jobs.drop_last(), kind);
        if jobs.last().kind == kind {
            front.push((jobs.len() - 1) as usize)
        } else {
            front
        }
    }
}

/// The jobs of one kind, in the order of the catalog.
pub open spec fn jobs_of_kind(jobs: Seq<JobView>, kind: AssetKind) -> Seq<JobView> {
    Seq::new(
        indices_of_kind(jobs, kind).len(),
        |p: int| jobs[indices_of_kind(jobs, kind)[p] as int],
    )
}

/// What is said of a failed batch with this catalog. A failed phase is
/// spoken of by the job that stands for its failure: by the input of a job
/// that could not be converted, and by the directory that could not be created
/// for one that could not be set up.
pub open spec fn failure_text(error: BatchError, jobs: Seq<JobView>) -> Seq<char> {
    match error {
        BatchError::Discovery(DiscoveryError::WalkFailed) => "Failed to walk input directory"@,
        BatchError::Discovery(DiscoveryError::OutsideInputRoot { .. }) =>
            "Failed to strip input directory prefix"@,
        BatchError::ToolUnavailable =>
            "ffmpeg not found. Please install ffmpeg and ensure it's in your PATH"@,
        BatchError::OutputDirectory => "Failed to create output directory"@,
        BatchError::Phase { kind, failure } => {
            let job = jobs[indices_of_kind(jobs, kind)[failure.job as int] as int];
            match failure.reason {
                FailureReason::Setup => "Failed to create output directory: "@ + text_of(
                    directory_of(job.output_path),
                ),
                FailureReason::Encode => match kind {
                    AssetKind::Video => "ffmpeg failed to convert video: "@ + text_of(
                        job.input_path,
                    ),
                    AssetKind::Image => "ffmpeg failed to convert image: "@ + text_of(
                        job.input_path,
                    ),
                },
            }
        },
    }
}

/// The phase that a batch starts with: the videos if there are any.
pub open spec fn first_phase(jobs: Seq<JobView>) -> AssetKind {
    if indices_of_kind(jobs, AssetKind::Video).len() > 0 {
        AssetKind::Video
    } else {
        AssetKind::Image
    }
}

/// The model with the summary of the phase of `kind` set.
pub open spec fn with_summary(
    model: BatchModel,
    kind: AssetKind,
    summary: PhaseSummary,
) -> BatchModel {
    match kind {
        AssetKind::Video => BatchModel { video_summary: Some(summary), ..model },
        AssetKind::Image => BatchModel { image_summary: Some(summary), ..model },
    }
}

/// Whether a report fits the state of the batch. A report on a phase fits
/// only with one outcome for each job of the phase.
pub open spec fn fits(model: BatchModel, event: BatchEventView) -> bool {
    match (model.state, event) {
        (BatchState::Discovering, BatchEventView::Discovered(_)) => true,
        (BatchState::Probing, BatchEventView::ToolProbed(_)) => true,
        (BatchState::PreparingOutput, BatchEventView::OutputDirectoryCreated { .. }) => true,
        (BatchState::Converting(kind), BatchEventView::PhaseEnded(outcomes)) => outcomes.len()
            == indices_of_kind(model.jobs, kind).len(),
        _ => false,
    }
}

/// The state that a report leads to; the state stays for a report that does
/// not fit it.
pub open spec fn next_state(model: BatchModel, event: BatchEventView) -> BatchState {
    if !fits(model, event) {
        model.state
    } else {
        match event {
            BatchEventView::Discovered(Err(e)) => BatchState::Finished(
                BatchOutcome::Failed(BatchError::Discovery(e)),
            ),
            BatchEventView::Discovered(Ok(jobs)) => if jobs.len() == 0 {
                BatchState::Finished(BatchOutcome::NothingFound)
            } else if model.dry_run {
                BatchState::Finished(BatchOutcome::Listed)
            } else {
                BatchState::Probing
            },
            BatchEventView::ToolProbed(run) => if tool_succeeded(run) {
                BatchState::PreparingOutput
            } else {
                BatchState::Finished(BatchOutcome::Failed(BatchError::ToolUnavailable))
            },
            BatchEventView::OutputDirectoryCreated { ok } => if ok {
                BatchState::Converting(first_phase(model.jobs))
            } else {
                BatchState::Finished(BatchOutcome::Failed(BatchError::OutputDirectory))
            },
            BatchEventView::PhaseEnded(outcomes) => match first_failure(outcomes) {
                Some(failure) => BatchState::Finished(
                    BatchOutcome::Failed(
                        BatchError::Phase { kind: model.state->Converting_0, failure },
                    ),
                ),
                None => if model.state == BatchState::Converting(AssetKind::Video)
                    && indices_of_kind(model.jobs, AssetKind::Image).len() > 0 {
                    BatchState::Converting(AssetKind::Image)
                } else {
                    BatchState::Finished(BatchOutcome::Completed)
                },
            },
        }
    }
}

/// The batch after a report.
pub open spec fn batch_step(model: BatchModel, event: BatchEventView) -> BatchModel {
    let state = next_state(model, event);
    if !fits(model, event) {
        model
    } else {
        match event {
            BatchEventView::Discovered(Ok(jobs)) => BatchModel { jobs, state, ..model },
            BatchEventView::PhaseEnded(outcomes) => BatchModel {
                state,
                ..with_summary(model, model.state->Converting_0, summary_of(outcomes))
            },
            _ => BatchModel { state, ..model },
        }
    }
}

/// What a batch asks for in answer to a report.
pub open spec fn batch_action(model: BatchModel, event: BatchEventView) -> BatchAction {
    if !fits(model, event) {
        BatchAction::Nothing
    } else {
        match next_state(model, event) {
            BatchState::Discovering => BatchAction::Nothing,
            BatchState::Probing => BatchAction::ProbeTool,
            BatchState::PreparingOutput => BatchAction::CreateOutputDirectory,
            BatchState::Converting(kind) => BatchAction::RunPhase(kind),
            BatchState::Finished(BatchOutcome::NothingFound) => BatchAction::ReportNothingFound,
            BatchState::Finished(BatchOutcome::Listed) => BatchAction::ListJobs,
            BatchState::Finished(BatchOutcome::Completed) => BatchAction::ReportSavings,
            BatchState::Finished(BatchOutcome::Failed(e)) => BatchAction::Fail(e),
        }
    }
}

/// The batch after a series of reports, taken in order.
pub open spec fn batch_after(model: BatchModel, events: Seq<BatchEventView>) -> BatchModel
    decreases events.len(),
{
    if events.len() == 0 {
        model
    } else {
        batch_step(batch_after(model, events.drop_last()), events.last())
    }
}

/// The answer to the report at position `k` of a series.
pub open spec fn action_at(model: BatchModel, events: Seq<BatchEventView>, k: int) -> BatchAction {
    batch_action(batch_after(model, events.take(k)), events[k])
}

/// A batch before anything was reported to it.
pub open spec fn initial_batch(dry_run: bool) -> BatchModel {
    BatchModel {
        dry_run,
        jobs: Seq::empty(),
        state: BatchState::Discovering,
        video_summary: None,
        image_summary: None,
    }
}

/// An action that runs a program or writes below the output root.
pub open spec fn performs_work(action: BatchAction) -> bool {
    action is ProbeTool || action is CreateOutputDirectory || action is RunPhase
}

/// An action that writes below the output root.
pub open spec fn writes_output(action: BatchAction) -> bool {
    action is CreateOutputDirectory || action is RunPhase
}

/// A failed phase names one of its jobs.
pub open spec fn model_wf(model: BatchModel) -> bool {
    model.state matches BatchState::Finished(
        BatchOutcome::Failed(BatchError::Phase { kind, failure }),
    ) ==> failure.job < indices_of_kind(model.jobs, kind).len()
}

/// The places of the jobs of a kind are places of the catalog, hold jobs of
/// that kind, and ascend; and every job of the catalog is at one of the places
/// of its kind.
pub proof fn lemma_indices_of_kind(jobs: Seq<JobView>, kind: AssetKind)
    requires
        jobs.len() <= usize::MAX,
    ensures
        indices_of_kind(jobs, kind).len() <= jobs.len(),
        forall|p: int|
            0 <= p < indices_of_kind(jobs, kind).len() ==> (#[trigger] indices_of_kind(
                jobs,
                kind,
            )[p]) < jobs.len() && jobs[indices_of_kind(jobs, kind)[p] as int].kind == kind,
        forall|p: int, q: int|
            0 <= p < q < indices_of_kind(jobs, kind).len() ==> (#[trigger] indices_of_kind(
                jobs,
                kind,
            )[p]) < (#[trigger] indices_of_kind(jobs, kind)[q]),
        forall|i: int|
            0 <= i < jobs.len() && (#[trigger] jobs[i]).kind == kind ==> indices_of_kind(
                jobs,
                kind,
            ).contains(i as usize),
        indices_of_kind(jobs, AssetKind::Video).len() + indices_of_kind(
            jobs,
            AssetKind::Image,
        ).len() == jobs.len(),
    decreases jobs.len(),
{
    if jobs.len() > 0 {
        let front = jobs.drop_last();
        lemma_indices_of_kind(front, kind);
        lemma_indices_of_kind(front, AssetKind::Video);
        lemma_indices_of_kind(front, AssetKind::Image);
        let places = indices_of_kind(jobs, kind);
        let before = indices_of_kind(front, kind);
        assert forall|p: int| 0 <= p < places.len() implies (#[trigger] places[p]) < jobs.len()
            && jobs[places[p] as int].kind == kind by {
            if p < before.len() {
                assert(places[p] == before[p]);
                assert(front[before[p] as int] == jobs[before[p] as int]);
            }
        }
        assert forall|p: int, q: int| 0 <= p < q < places.len() implies (#[trigger] places[p]) < (
        #[trigger] places[q]) by {
            assert(places[p] == before[p]);
            if q < before.len() {
                assert(places[q] == before[q]);
            }
        }
        assert forall|i: int| 0 <= i < jobs.len() && (#[trigger] jobs[i]).kind
            == kind implies places.contains(i as usize) by {
            if i < front.len() {
                assert(front[i] == jobs[i]);
                assert(before.contains(i as usize));
                let p = choose|p: int| 0 <= p < before.len() && before[p] == i as usize;
                assert(places[p] == i as usize);
            } else {
                assert(places[places.len() - 1] == i as usize);
            }
        }
    }
}

/// A report leaves a batch in order, and a batch that has ended stays as it
/// is and asks for nothing more.
pub proof fn lemma_batch_step(model: BatchModel, event: BatchEventView)
    requires
        model_wf(model),
    ensures
        model_wf(batch_step(model, event)),
        batch_step(model, event).dry_run == model.dry_run,
        model.state is Finished ==> batch_step(model, event) == model && batch_action(model, event)
            is Nothing,
{
    if let BatchEventView::PhaseEnded(outcomes) = event {
        lemma_first_failure_in_range(outcomes);
    }
}

/// A catalog without jobs ends the batch at once and without fault, dry run
/// or not: nothing is tried, written or run.
pub proof fn lemma_empty_catalog_is_no_fault(dry_run: bool)
    ensures
        batch_step(
            initial_batch(dry_run),
            BatchEventView::Discovered(Ok(Seq::empty())),
        ).state == BatchState::Finished(BatchOutcome::NothingFound),
        batch_action(initial_batch(dry_run), BatchEventView::Discovered(Ok(Seq::empty())))
            == BatchAction::ReportNothingFound,
{
}

/// A dry run holds the whole catalog once it is discovered and ends there:
/// whatever is reported to it and in whatever order, it never asks for the
/// tool to be tried or run, nor for anything to be written.
pub proof fn lemma_dry_run_performs_no_work(
    jobs: Seq<JobView>,
    events: Seq<BatchEventView>,
    k: int,
)
    requires
        0 <= k < events.len(),
    ensures
        batch_step(initial_batch(true), BatchEventView::Discovered(Ok(jobs))).jobs == jobs,
        batch_step(initial_batch(true), BatchEventView::Discovered(Ok(jobs))).state is Finished,
        !performs_work(action_at(initial_batch(true), events, k)),
        !(action_at(initial_batch(true), events, k) is ReportSavings),
{
    lemma_dry_run_stays_idle(events.take(k));
    let before = batch_after(initial_batch(true), events.take(k));
    lemma_batch_step(before, events[k]);
}

/// A dry run is discovering or has ended, whatever was reported to it.
proof fn lemma_dry_run_stays_idle(events: Seq<BatchEventView>)
    ensures
        batch_after(initial_batch(true), events).dry_run,
        model_wf(batch_after(initial_batch(true), events)),
        batch_after(initial_batch(true), events).state is Discovering || batch_after(
            initial_batch(true),
            events,
        ).state is Finished,
    decreases events.len(),
{
    if events.len() > 0 {
        let front = events.drop_last();
        lemma_dry_run_stays_idle(front);
        lemma_batch_step(batch_after(initial_batch(true), front), events.last());
    }
}

/// Whether the tool was found to work in one of the reports.
pub open spec fn tool_was_found(events: Seq<BatchEventView>) -> bool {
    exists|i: int|
        0 <= i < events.len() && (#[trigger] events[i] matches BatchEventView::ToolProbed(run)
            && tool_succeeded(run))
}

/// Unless the tool was tried and found to work, no job is run and nothing
/// is written: a failed trial ends the batch.
pub proof fn lemma_no_output_without_tool(
    dry_run: bool,
    events: Seq<BatchEventView>,
    k: int,
)
    requires
        0 <= k < events.len(),
        !tool_was_found(events.take(k + 1)),
    ensures
        !writes_output(action_at(initial_batch(dry_run), events, k)),
        batch_after(initial_batch(dry_run), events.take(k)).state is Probing
            && events[k] is ToolProbed ==> batch_after(
            initial_batch(dry_run),
            events.take(k + 1),
        ).state == BatchState::Finished(BatchOutcome::Failed(BatchError::ToolUnavailable)),
{
    let upto = events.take(k + 1);
    assert(upto.drop_last() == events.take(k));
    assert(upto.last() == events[k]);
    lemma_waits_for_tool(dry_run, upto);
    let before = batch_after(initial_batch(dry_run), events.take(k));
    assert(!tool_was_found(events.take(k))) by {
        if tool_was_found(events.take(k)) {
            let i = choose|i: int|
                0 <= i < events.take(k).len() && (#[trigger] events.take(
                    k,
                )[i] matches BatchEventView::ToolProbed(run) && tool_succeeded(run));
            assert(upto[i] == events.take(k)[i]);
        }
    }
    lemma_waits_for_tool(dry_run, events.take(k));
    assert(upto[k] == events[k]);
}

/// Before the tool was found to work, a batch has not come past its trial.
proof fn lemma_waits_for_tool(dry_run: bool, events: Seq<BatchEventView>)
    requires
        !tool_was_found(events),
    ensures
        model_wf(batch_after(initial_batch(dry_run), events)),
        !(batch_after(initial_batch(dry_run), events).state is PreparingOutput),
        !(batch_after(initial_batch(dry_run), events).state is Converting),
        !(batch_after(initial_batch(dry_run), events).state == BatchState::Finished(
            BatchOutcome::Completed,
        )),
    decreases events.len(),
{
    if events.len() > 0 {
        let front = events.drop_last();
        assert(!tool_was_found(front)) by {
            if tool_was_found(front) {
                let i = choose|i: int|
                    0 <= i < front.len() && (#[trigger] front[i] matches BatchEventView::ToolProbed(
                        run,
                    ) && tool_succeeded(run));
                assert(events[i] == front[i]);
            }
        }
        lemma_waits_for_tool(dry_run, front);
        lemma_batch_step(batch_after(initial_batch(dry_run), front), events.last());
        assert(events[events.len() - 1] == events.last());
    }
}

/// The videos come first: the image phase starts only when there are no
/// videos or when every video job has succeeded, and once it has started no
/// video job is run any more.
pub proof fn lemma_videos_before_images(model: BatchModel, event: BatchEventView)
    requires
        model_wf(model),
    ensures
        batch_action(model, event) == BatchAction::RunPhase(AssetKind::Image) ==> (model.state
            is PreparingOutput && indices_of_kind(model.jobs, AssetKind::Video).len() == 0) || (
        model.state == BatchState::Converting(AssetKind::Video) && event is PhaseEnded
            && first_failure(event->PhaseEnded_0) is None),
        batch_action(model, event) == BatchAction::RunPhase(AssetKind::Video) ==> model.state
            is PreparingOutput,
        model.state == BatchState::Converting(AssetKind::Image) ==> !(batch_action(model, event)
            is RunPhase),
{
}

/// Finds the places in the catalog of the jobs of one kind.
pub fn positions_of_kind(jobs: &Vec<ConversionJob>, kind: AssetKind) -> (places: Vec<usize>)
    ensures
        places@ == indices_of_kind(views_of(jobs@), kind),
{
    let mut places: Vec<usize> = Vec::new();
    let mut i: usize = 0;
    assert(views_of(jobs@).take(0) =~= Seq::<JobView>::empty());
    while i < jobs.len()
        invariant
            i <= jobs@.len(),
            places@ == indices_of_kind(views_of(jobs@).take(i as int), kind),
        decreases jobs.len() - i,
    {
        let ghost upto = views_of(jobs@).take(i + 1);
        assert(upto.drop_last() == views_of(jobs@).take(i as int));
        assert(upto.last() == jobs@[i as int]@);
        if jobs[i].kind == kind {
            places.push(i);
        }
        i += 1;
    }
    assert(views_of(jobs@).take(jobs@.len() as int) == views_of(jobs@));
    places
}

/// A batch under way.
pub struct Batch {
    settings: ConversionSettings,
    jobs: Vec<ConversionJob>,
    videos: Vec<usize>,
    images: Vec<usize>,
    state: BatchState,
    video_summary: Option<PhaseSummary>,
    image_summary: Option<PhaseSummary>,
}

impl View for Batch {
    type V = BatchModel;

    closed spec fn view(&self) -> BatchModel {
        BatchModel {
            dry_run: self.settings.dry_run,
            jobs: views_of(self.jobs@),
            state: self.state,
            video_summary: self.video_summary,
            image_summary: self.image_summary,
        }
    }
}

impl Batch {
    /// The settings that the batch was made with.
    pub closed spec fn spec_settings(&self) -> ConversionSettings {
        self.settings
    }

    /// The batch keeps the places of its videos and of its images.
    pub closed spec fn indexed(&self) -> bool {
        &&& self.videos@ == indices_of_kind(views_of(self.jobs@), AssetKind::Video)
        &&& self.images@ == indices_of_kind(views_of(self.jobs@), AssetKind::Image)
    }

    pub open spec fn wf(&self) -> bool {
        &&& self.spec_settings().wf()
        &&& self.indexed()
        &&& model_wf(self@)
    }

    /// A batch under `settings`, waiting for its catalog. There is no batch
    /// under settings that allow no conversion at a time.
    pub fn new(settings: ConversionSettings) -> (batch: Result<Batch, ConfigError>)
        ensures
            batch is Err <==> settings.max_concurrent == 0,
            batch matches Err(e) ==> e == ConfigError::NoConcurrency,
            batch matches Ok(b) ==> b.wf() && b.spec_settings() == settings && b@ == initial_batch(
                settings.dry_run,
            ),
    {
        if settings.max_concurrent == 0 {
            return Err(ConfigError::NoConcurrency);
        }
        let batch = Batch {
            settings,
            jobs: Vec::new(),
            videos: Vec::new(),
            images: Vec::new(),
            state: BatchState::Discovering,
            video_summary: None,
            image_summary: None,
        };
        assert(views_of(batch.jobs@) =~= Seq::<JobView>::empty());
        Ok(batch)
    }

    /// The settings of the batch.
    pub fn settings(&self) -> (settings: &ConversionSettings)
        ensures
            *settings == self.spec_settings(),
    {
        &self.settings
    }

    /// What the batch waits for.
    pub fn state(&self) -> (state: BatchState)
        ensures
            state == self@.state,
    {
        self.state
    }

    /// The catalog, once it was reported.
    pub fn jobs(&self) -> (jobs: &Vec<ConversionJob>)
        ensures
            views_of(jobs@) == self@.jobs,
    {
        &self.jobs
    }

    /// The places in the catalog of the jobs of one phase, in the order in
    /// which the phase takes them.
    pub fn phase_jobs(&self, kind: AssetKind) -> (places: &Vec<usize>)
        requires
            self.wf(),
        ensures
            places@ == indices_of_kind(self@.jobs, kind),
            forall|p: int| 0 <= p < places@.len() ==> (#[trigger] places@[p]) < self@.jobs.len(),
    {
        proof {
            assert(self@.jobs.len() == self.jobs.len());
            lemma_indices_of_kind(self@.jobs, kind);
        }
        match kind {
            AssetKind::Video => &self.videos,
            AssetKind::Image => &self.images,
        }
    }

    /// The phase that the batch waits for, none of its jobs started yet: it
    /// holds the jobs of its kind in the order of the catalog and has the
    /// batch's limit on concurrent conversions to itself. There is no phase to
    /// run while the batch waits for something else.
    pub fn phase(&self) -> (phase: Option<Phase>)
        requires
            self.wf(),
        ensures
            phase is Some <==> self@.state is Converting,
            phase matches Some(p) ==> p.wf() && p@ == initial_phase(
                jobs_of_kind(self@.jobs, self@.state->Converting_0),
                self.spec_settings().video_crf,
                self.spec_settings().webp_quality,
                self.spec_settings().max_concurrent as nat,
            ),
    {
        let kind = match self.state {
            BatchState::Converting(kind) => kind,
            _ => {
                return None;
            },
        };
        let places = self.phase_jobs(kind);
        let mut jobs: Vec<ConversionJob> = Vec::new();
        let mut p: usize = 0;
        while p < places.len()
            invariant
                p <= places@.len(),
                places@ == indices_of_kind(self@.jobs, kind),
                forall|q: int|
                    0 <= q < places@.len() ==> (#[trigger] places@[q]) < self.jobs@.len(),
                jobs@.len() == p,
                forall|q: int|
                    0 <= q < p ==> (#[trigger] jobs@[q])@ == self.jobs@[places@[q] as int]@,
            decreases places.len() - p,
        {
            jobs.push(self.jobs[places[p]].duplicate());
            p += 1;
        }
        assert(views_of(jobs@) =~= jobs_of_kind(self@.jobs, kind));
        Some(Phase::new(&jobs, &self.settings))
    }

    /// How the phase of `kind` ended, once it has.
    pub fn summary(&self, kind: AssetKind) -> (summary: Option<PhaseSummary>)
        ensures
            summary == (match kind {
                AssetKind::Video => self@.video_summary,
                AssetKind::Image => self@.image_summary,
            }),
    {
        match kind {
            AssetKind::Video => self.video_summary,
            AssetKind::Image => self.image_summary,
        }
    }

    /// The place in the catalog of the job that stands for the failure of the
    /// batch, if a phase of the batch failed.
    pub fn failed_job(&self) -> (place: Option<usize>)
        requires
            self.wf(),
        ensures
            match self@.state {
                BatchState::Finished(BatchOutcome::Failed(BatchError::Phase { kind, failure })) => {
                    &&& place == Some(indices_of_kind(self@.jobs, kind)[failure.job as int])
                    &&& place->0 < self@.jobs.len()
                },
                _ => place is None,
            },
    {
        match self.state {
            BatchState::Finished(BatchOutcome::Failed(BatchError::Phase { kind, failure })) => {
                let places = self.phase_jobs(kind);
                Some(places[failure.job])
            },
            _ => None,
        }
    }

    /// What is said of the failure of the batch, if the batch has failed.
    pub fn failure_message(&self) -> (text: Option<String>)
        requires
            self.wf(),
        ensures
            match self@.state {
                BatchState::Finished(BatchOutcome::Failed(error)) => text matches Some(t) && t@
                    == failure_text(error, self@.jobs),
                _ => text is None,
            },
    {
        let error = match self.state {
            BatchState::Finished(BatchOutcome::Failed(error)) => error,
            _ => {
                return None;
            },
        };
        let text = match error {
            BatchError::Discovery(DiscoveryError::WalkFailed) =>
                "Failed to walk input directory".to_owned(),
            BatchError::Discovery(DiscoveryError::OutsideInputRoot { .. }) =>
                "Failed to strip input directory prefix".to_owned(),
            BatchError::ToolUnavailable =>
                "ffmpeg not found. Please install ffmpeg and ensure it's in your PATH".to_owned(),
            BatchError::OutputDirectory => "Failed to create output directory".to_owned(),
            BatchError::Phase { kind, failure } => {
                let places = self.phase_jobs(kind);
                let job = &self.jobs[places[failure.job]];
                match failure.reason {
                    FailureReason::Setup => join_texts(
                        "Failed to create output directory: ",
                        job.output_path.directory().to_text().as_str(),
                    ),
                    FailureReason::Encode => match kind {
                        AssetKind::Video => join_texts(
                            "ffmpeg failed to convert video: ",
                            job.input_path.to_text().as_str(),
                        ),
                        AssetKind::Image => join_texts(
                            "ffmpeg failed to convert image: ",
                            job.input_path.to_text().as_str(),
                        ),
                    },
                }
            },
        };
        Some(text)
    }

    /// Takes a report and answers with what is to be done next.
    pub fn step(&mut self, event: BatchEvent) -> (action: BatchAction)
        requires
            old(self).wf(),
        ensures
            final(self).wf(),
            final(self).spec_settings() == old(self).spec_settings(),
            final(self)@ == batch_step(old(self)@, event@),
            action == batch_action(old(self)@, event@),
    {
        match self.state {
            BatchState::Discovering => match event {
                BatchEvent::Discovered(Ok(jobs)) => {
                    self.videos = positions_of_kind(&jobs, AssetKind::Video);
                    self.images = positions_of_kind(&jobs, AssetKind::Image);
                    self.state = if jobs.len() == 0 {
                        BatchState::Finished(BatchOutcome::NothingFound)
                    } else if self.settings.dry_run {
                        BatchState::Finished(BatchOutcome::Listed)
                    } else {
                        BatchState::Probing
                    };
                    self.jobs = jobs;
                    self.answer()
                },
                BatchEvent::Discovered(Err(e)) => {
                    self.state = BatchState::Finished(
                        BatchOutcome::Failed(BatchError::Discovery(e)),
                    );
                    self.answer()
                },
                _ => BatchAction::Nothing,
            },
            BatchState::Probing => match event {
                BatchEvent::ToolProbed(run) => {
                    self.state = match check_ffmpeg_availability(run) {
                        Ok(()) => BatchState::PreparingOutput,
                        Err(_) => BatchState::Finished(
                            BatchOutcome::Failed(BatchError::ToolUnavailable),
                        ),
                    };
                    self.answer()
                },
                _ => BatchAction::Nothing,
            },
            BatchState::PreparingOutput => match event {
                BatchEvent::OutputDirectoryCreated { ok } => {
                    self.state = if !ok {
                        BatchState::Finished(BatchOutcome::Failed(BatchError::OutputDirectory))
                    } else if self.videos.len() > 0 {
                        BatchState::Converting(AssetKind::Video)
                    } else {
                        BatchState::Converting(AssetKind::Image)
                    };
                    self.answer()
                },
                _ => BatchAction::Nothing,
            },
            BatchState::Converting(kind) => match event {
                BatchEvent::PhaseEnded(outcomes) => {
                    let expected = match kind {
                        AssetKind::Video => self.videos.len(),
                        AssetKind::Image => self.images.len(),
                    };
                    if outcomes.len() != expected {
                        return BatchAction::Nothing;
                    }
                    let summary = summarize(&outcomes);
                    match kind {
                        AssetKind::Video => {
                            self.video_summary = Some(summary);
                        },
                        AssetKind::Image => {
                            self.image_summary = Some(summary);
                        },
                    }
                    self.state = match summary.first_failure {
                        Some(failure) => BatchState::Finished(
                            BatchOutcome::Failed(BatchError::Phase { kind, failure }),
                        ),
                        None => match kind {
                            AssetKind::Video => if self.images.len() > 0 {
                                BatchState::Converting(AssetKind::Image)
                            } else {
                                BatchState::Finished(BatchOutcome::Completed)
                            },
                            AssetKind::Image => BatchState::Finished(BatchOutcome::Completed),
                        },
                    };
                    self.answer()
                },
                _ => BatchAction::Nothing,
            },
            BatchState::Finished(_) => BatchAction::Nothing,
        }
    }

    /// What is to be done on arriving in the present state.
    fn answer(&self) -> (action: BatchAction)
        ensures
            action == (match self@.state {
                BatchState::Discovering => BatchAction::Nothing,
                BatchState::Probing => BatchAction::ProbeTool,
                BatchState::PreparingOutput => BatchAction::CreateOutputDirectory,
                BatchState::Converting(kind) => BatchAction::RunPhase(kind),
                BatchState::Finished(BatchOutcome::NothingFound) => BatchAction::ReportNothingFound,
                BatchState::Finished(BatchOutcome::Listed) => BatchAction::ListJobs,
                BatchState::Finished(BatchOutcome::Completed) => BatchAction::ReportSavings,
                BatchState::Finished(BatchOutcome::Failed(e)) => BatchAction::Fail(e),
            }),
    {
        match self.state {
            BatchState::Discovering => BatchAction::Nothing,
            BatchState::Probing => BatchAction::ProbeTool,
            BatchState::PreparingOutput => BatchAction::CreateOutputDirectory,
            BatchState::Converting(kind) => BatchAction::RunPhase(kind),
            BatchState::Finished(BatchOutcome::NothingFound) => BatchAction::ReportNothingFound,
            BatchState::Finished(BatchOutcome::Listed) => BatchAction::ListJobs,
            BatchState::Finished(BatchOutcome::Completed) => BatchAction::ReportSavings,
            BatchState::Finished(BatchOutcome::Failed(e)) => BatchAction::Fail(e),
        }
    }
}

} // verus!

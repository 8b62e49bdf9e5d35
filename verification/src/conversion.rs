//! One conversion from start to end: the directory to create, the command to
//! run, the marks that its progress passes, and the one outcome that it ends
//! with.
//!
//! A [`ConversionRun`] decides and its caller acts. The caller reports that the
//! job has started, creates the directory it is told to create, runs the tool
//! with the arguments it is given, and reports each result back; the run
//! answers each report with the next thing to do.
//!
//! The status with which the tool ends is all that decides between success
//! and failure. A job is tried once: a run that has ended takes no further
//! report, and what a failed job has written so far is left where it is. A run
//! sets no limit to the time the tool may take; a tool that never returns keeps
//! its job running for good.
use crate::catalog::{AssetKind, ConversionJob, JobView};
use crate::outcome::{FailureReason, JobOutcome};
use crate::path::{directory_of, AssetPath};
use crate::settings::ConversionSettings;
use crate::text::{decimal, decimal_string, push_text, string_of};
use vstd::prelude::*;

verus! {

/// How a run of the codec tool ended.
#[derive(Clone, Copy, Debug, PartialEq, Eq, Structural)]
pub enum ToolRun {
    /// The tool could not be started.
    LaunchFailed,
    /// The tool ran and ended, with a success status or another.
    Exited { success: bool },
}

/// The codec tool is missing or does not work.
#[derive(Clone, Copy, Debug, PartialEq, Eq, Structural)]
pub struct ToolUnavailable;

/// Whether a run of the tool counts as a success: only a run that ended with
/// a success status does.
pub open spec fn tool_succeeded(run: ToolRun) -> bool {
    run == (ToolRun::Exited { success: true })
}

/// The marks that the progress of a job passes, in this order.
#[derive(Clone, Copy, Debug, PartialEq, Eq, Structural)]
pub enum ProgressMarker {
    Queued,
    Preparing,
    Running,
    Finalizing,
    Done,
}

/// Whether a job is still under way, and how it ended if it is not.
#[derive(Clone, Copy, Debug, PartialEq, Eq, Structural)]
pub enum ProgressStatus {
    Active,
    Succeeded,
    Failed,
}

/// One argument of a run of the tool.
#[derive(Clone, Debug, PartialEq, Eq)]
pub enum ToolArgument {
    /// A word, handed on as it is.
    Text(String),
    /// A file, handed on as the path that the operating system knows it by.
    File(AssetPath),
}

/// An argument as contracts speak of it.
pub enum ArgumentView {
    Text(Seq<char>),
    File(Seq<Seq<char>>),
}

impl View for ToolArgument {
    type V = ArgumentView;

    open spec fn view(&self) -> ArgumentView {
        match self {
            ToolArgument::Text(word) => ArgumentView::Text(word@),
            ToolArgument::File(path) => ArgumentView::File(path@),
        }
    }
}

/// The arguments of a list as contracts speak of them.
pub open spec fn arguments_of(arguments: Seq<ToolArgument>) -> Seq<ArgumentView> {
    Seq::new(arguments.len(), |i: int| arguments[i]@)
}

/// One run of a program, as the caller is to make it.
#[derive(Clone, Debug, PartialEq, Eq)]
pub struct ToolInvocation {
    /// The name of the program, to be looked up as the operating system does.
    pub program: String,
    pub arguments: Vec<ToolArgument>,
    /// Whether what the program writes to its standard output and standard
    /// error is thrown away.
    pub quiet: bool,
}

/// A [`ToolInvocation`] as contracts speak of it.
pub struct InvocationView {
    pub program: Seq<char>,
    pub arguments: Seq<ArgumentView>,
    pub quiet: bool,
}

impl View for ToolInvocation {
    type V = InvocationView;

    open spec fn view(&self) -> InvocationView {
        InvocationView {
            program: self.program@,
            arguments: arguments_of(self.arguments@),
            quiet: self.quiet,
        }
    }
}

/// The progress of one job as a display reads it: the mark that it has
/// reached, a status, and a label to show.
#[derive(Clone, Debug, PartialEq, Eq)]
pub struct JobProgress {
    pub marker: ProgressMarker,
    pub status: ProgressStatus,
    pub label: String,
}

/// What a run waits for.
#[derive(Clone, Copy, Debug, PartialEq, Eq, Structural)]
pub enum RunState {
    /// For its start.
    Created,
    /// For the directory of its output.
    AwaitingDirectory,
    /// For the tool to return.
    AwaitingTool,
    /// For nothing: it has ended, with this outcome.
    Ended(JobOutcome),
}

/// What the caller reports to a run.
#[derive(Clone, Copy, Debug, PartialEq, Eq, Structural)]
pub enum ConversionEvent {
    /// The job has been given a place and starts.
    Started,
    /// The directory was created or was there, or could not be created.
    DirectoryCreated { ok: bool },
    /// The tool was run.
    ToolReturned(ToolRun),
}

/// What a run asks of its caller.
#[derive(Clone, Debug, PartialEq, Eq)]
pub enum ConversionAction {
    /// Create this directory and all that is missing above it. The empty path
    /// stands for the directory that is there in any case.
    CreateDirectory(AssetPath),
    /// Make this run of the tool.
    RunTool(ToolInvocation),
    /// Hand this outcome on: the job has ended.
    Finish(JobOutcome),
    /// Nothing: the report did not fit the state of the run and was ignored.
    Nothing,
}

/// An action as contracts speak of it.
pub enum ActionView {
    CreateDirectory(Seq<Seq<char>>),
    RunTool(InvocationView),
    Finish(JobOutcome),
    Nothing,
}

impl View for ConversionAction {
    type V = ActionView;

    open spec fn view(&self) -> ActionView {
        match self {
            ConversionAction::CreateDirectory(dir) => ActionView::CreateDirectory(dir@),
            ConversionAction::RunTool(invocation) => ActionView::RunTool(invocation@),
            ConversionAction::Finish(outcome) => ActionView::Finish(*outcome),
            ConversionAction::Nothing => ActionView::Nothing,
        }
    }
}

/// The state of a run without its job: what it waits for, the marks that
/// its progress has passed, the last of which it shows, and its status.
pub struct RunModel {
    pub state: RunState,
    pub trail: Seq<ProgressMarker>,
    pub status: ProgressStatus,
}

/// A run as contracts speak of it.
pub struct RunView {
    pub job: JobView,
    pub video_crf: u8,
    pub webp_quality: u8,
    pub model: RunModel,
    pub label: Seq<char>,
}

/// The position on a scale of 100 that a mark stands for.
pub open spec fn marker_position(marker: ProgressMarker) -> nat {
    match marker {
        ProgressMarker::Queued => 0,
        ProgressMarker::Preparing => 10,
        ProgressMarker::Running => 20,
        ProgressMarker::Finalizing => 90,
        ProgressMarker::Done => 100,
    }
}

/// The name under which a job is shown: the name of its input file, or
/// `unknown` for a path without components.
pub open spec fn display_name(input_path: Seq<Seq<char>>) -> Seq<char> {
    if input_path.len() > 0 {
        input_path.last()
    } else {
        "unknown"@
    }
}

/// The label of a job: what is being done while it is under way, then a
/// check mark or a cross, each before the name of the job.
pub open spec fn label_text(status: ProgressStatus, name: Seq<char>) -> Seq<char> {
    match status {
        ProgressStatus::Active => "Converting "@ + name,
        ProgressStatus::Succeeded => seq!['\u{2705}', ' '] + name,
        ProgressStatus::Failed => seq!['\u{274c}', ' '] + name,
    }
}

/// The arguments with which the tool converts a job: the input, the codec of
/// the job's kind with its quality (for a video also a free bit rate and the
/// audio codec), leave to overwrite, and the output.
pub open spec fn transcode_arguments(
    job: JobView,
    video_crf: u8,
    webp_quality: u8,
) -> Seq<ArgumentView> {
    match job.kind {
        AssetKind::Video => seq![
            ArgumentView::Text("-i"@),
            ArgumentView::File(job.input_path),
            ArgumentView::Text("-c:v"@),
            ArgumentView::Text("libvpx-vp9"@),
            ArgumentView::Text("-crf"@),
            ArgumentView::Text(decimal(video_crf as nat)),
            ArgumentView::Text("-b:v"@),
            ArgumentView::Text("0"@),
            ArgumentView::Text("-c:a"@),
            ArgumentView::Text("libopus"@),
            ArgumentView::Text("-y"@),
            ArgumentView::File(job.output_path),
        ],
        AssetKind::Image => seq![
            ArgumentView::Text("-i"@),
            ArgumentView::File(job.input_path),
            ArgumentView::Text("-c:v"@),
            ArgumentView::Text("libwebp"@),
            ArgumentView::Text("-quality"@),
            ArgumentView::Text(decimal(webp_quality as nat)),
            ArgumentView::Text("-y"@),
            ArgumentView::File(job.output_path),
        ],
    }
}

/// The run of the tool that converts a job: the codec tool, with the
/// arguments for the job, and nothing of what it writes is kept.
pub open spec fn transcode_invocation(
    job: JobView,
    video_crf: u8,
    webp_quality: u8,
) -> InvocationView {
    InvocationView {
        program: "ffmpeg"@,
        arguments: transcode_arguments(job, video_crf, webp_quality),
        quiet: true,
    }
}

/// The trial run that shows whether the codec tool is there: the tool is
/// asked for its version, and nothing of what it writes is kept.
pub open spec fn probe_invocation() -> InvocationView {
    InvocationView {
        program: "ffmpeg"@,
        arguments: seq![ArgumentView::Text("-version"@)],
        quiet: true,
    }
}

/// The outcome of a job whose tool run ended as `run`.
pub open spec fn outcome_of(run: ToolRun) -> JobOutcome {
    if tool_succeeded(run) {
        JobOutcome::Succeeded
    } else {
        JobOutcome::Failed(FailureReason::Encode)
    }
}

/// The marks that the progress of a run passes on a report, in order: none
/// while the directory is made, two once it is there and the tool starts, one
/// when the tool has returned, and the last if it returned with success.
pub open spec fn marks_passed(state: RunState, event: ConversionEvent) -> Seq<ProgressMarker> {
    match (state, event) {
        (RunState::AwaitingDirectory, ConversionEvent::DirectoryCreated { ok: true }) => seq![
            ProgressMarker::Preparing,
            ProgressMarker::Running,
        ],
        (
            RunState::AwaitingTool,
            ConversionEvent::ToolReturned(ToolRun::Exited { success: true }),
        ) => seq![ProgressMarker::Finalizing, ProgressMarker::Done],
        (
            RunState::AwaitingTool,
            ConversionEvent::ToolReturned(ToolRun::Exited { success: false }),
        ) => seq![ProgressMarker::Finalizing],
        _ => Seq::empty(),
    }
}

/// What a run waits for after a report. A report that does not fit the state
/// changes nothing.
pub open spec fn next_run_state(state: RunState, event: ConversionEvent) -> RunState {
    match (state, event) {
        (RunState::Created, ConversionEvent::Started) => RunState::AwaitingDirectory,
        (RunState::AwaitingDirectory, ConversionEvent::DirectoryCreated { ok }) => if ok {
            RunState::AwaitingTool
        } else {
            RunState::Ended(JobOutcome::Failed(FailureReason::Setup))
        },
        (RunState::AwaitingTool, ConversionEvent::ToolReturned(run)) => RunState::Ended(
            outcome_of(run),
        ),
        _ => state,
    }
}

/// The status that goes with what a run waits for.
pub open spec fn status_of(state: RunState) -> ProgressStatus {
    match state {
        RunState::Ended(JobOutcome::Succeeded) => ProgressStatus::Succeeded,
        RunState::Ended(JobOutcome::Failed(_)) => ProgressStatus::Failed,
        _ => ProgressStatus::Active,
    }
}

/// The state of a run after a report.
pub open spec fn run_step(model: RunModel, event: ConversionEvent) -> RunModel {
    RunModel {
        state: next_run_state(model.state, event),
        trail: model.trail + marks_passed(model.state, event),
        status: status_of(next_run_state(model.state, event)),
    }
}

/// A run after a report: its state, and the label that goes with its new
/// status.
pub open spec fn run_view_step(run: RunView, event: ConversionEvent) -> RunView {
    RunView {
        model: run_step(run.model, event),
        label: label_text(run_step(run.model, event).status, display_name(run.job.input_path)),
        ..run
    }
}

/// A new run for a job.
pub open spec fn initial_run(job: JobView, video_crf: u8, webp_quality: u8) -> RunView {
    RunView {
        job,
        video_crf,
        webp_quality,
        model: initial_model(),
        label: label_text(ProgressStatus::Active, display_name(job.input_path)),
    }
}

/// What a run asks for in answer to a report.
pub open spec fn run_action(run: RunView, event: ConversionEvent) -> ActionView {
    match (run.model.state, event) {
        (RunState::Created, ConversionEvent::Started) => ActionView::CreateDirectory(
            directory_of(run.job.output_path),
        ),
        (RunState::AwaitingDirectory, ConversionEvent::DirectoryCreated { ok }) => if ok {
            ActionView::RunTool(transcode_invocation(run.job, run.video_crf, run.webp_quality))
        } else {
            ActionView::Finish(JobOutcome::Failed(FailureReason::Setup))
        },
        (RunState::AwaitingTool, ConversionEvent::ToolReturned(tool)) => ActionView::Finish(
            outcome_of(tool),
        ),
        _ => ActionView::Nothing,
    }
}

/// The progress of a run fits what the run waits for: its marks are those
/// that lead up to that state, in their order, and its status is that of the
/// state. A job is marked done exactly when it has succeeded.
pub open spec fn model_wf(model: RunModel) -> bool {
    &&& model.status == status_of(model.state)
    &&& match model.state {
        RunState::Created | RunState::AwaitingDirectory | RunState::Ended(
            JobOutcome::Failed(FailureReason::Setup),
        ) => model.trail == seq![ProgressMarker::Queued],
        RunState::AwaitingTool => model.trail == seq![
            ProgressMarker::Queued,
            ProgressMarker::Preparing,
            ProgressMarker::Running,
        ],
        RunState::Ended(JobOutcome::Failed(FailureReason::Encode)) => model.trail == seq![
            ProgressMarker::Queued,
            ProgressMarker::Preparing,
            ProgressMarker::Running,
        ] || model.trail == seq![
            ProgressMarker::Queued,
            ProgressMarker::Preparing,
            ProgressMarker::Running,
            ProgressMarker::Finalizing,
        ],
        RunState::Ended(JobOutcome::Succeeded) => model.trail == seq![
            ProgressMarker::Queued,
            ProgressMarker::Preparing,
            ProgressMarker::Running,
            ProgressMarker::Finalizing,
            ProgressMarker::Done,
        ],
    }
}

/// Whether the marks of a trail stand for ever larger positions.
pub open spec fn ascending(trail: Seq<ProgressMarker>) -> bool {
    forall|i: int, j: int|
        0 <= i < j < trail.len() ==> marker_position(#[trigger] trail[i]) < marker_position(
            #[trigger] trail[j],
        )
}

/// The state of a run after a series of reports, taken in order.
pub open spec fn run_after(model: RunModel, events: Seq<ConversionEvent>) -> RunModel
    decreases events.len(),
{
    if events.len() == 0 {
        model
    } else {
        run_step(run_after(model, events.drop_last()), events.last())
    }
}

/// How many of the answers to a series of reports hand an outcome on.
pub open spec fn outcomes_given(run: RunView, events: Seq<ConversionEvent>) -> nat
    decreases events.len(),
{
    if events.len() == 0 {
        0
    } else {
        let before = RunView { model: run_after(run.model, events.drop_last()), ..run };
        outcomes_given(run, events.drop_last()) + if run_action(before, events.last())
            is Finish {
            1nat
        } else {
            0nat
        }
    }
}

/// How many of the answers to a series of reports ask for the tool to be
/// run.
pub open spec fn tool_runs(run: RunView, events: Seq<ConversionEvent>) -> nat
    decreases events.len(),
{
    if events.len() == 0 {
        0
    } else {
        let before = RunView { model: run_after(run.model, events.drop_last()), ..run };
        tool_runs(run, events.drop_last()) + if run_action(before, events.last()) is RunTool {
            1nat
        } else {
            0nat
        }
    }
}

/// A new run: waiting for its start, queued, under way.
pub open spec fn initial_model() -> RunModel {
    RunModel {
        state: RunState::Created,
        trail: seq![ProgressMarker::Queued],
        status: ProgressStatus::Active,
    }
}

/// A report leaves the progress of a run fitting its state. The tool is run
/// only in answer to the report that the directory is there. An outcome is
/// handed on exactly when the run ends, it is the outcome that the run ends
/// with, and a run that has ended stays as it is and answers nothing more.
pub proof fn lemma_run_step(run: RunView, event: ConversionEvent)
    requires
        model_wf(run.model),
    ensures
        model_wf(run_step(run.model, event)),
        run_action(run, event) is RunTool <==> run.model.state == RunState::AwaitingDirectory
            && event == (ConversionEvent::DirectoryCreated { ok: true }),
        run_action(run, event) is Finish <==> !(run.model.state is Ended) && run_step(
            run.model,
            event,
        ).state is Ended,
        run_action(run, event) matches ActionView::Finish(outcome) ==> run_step(
            run.model,
            event,
        ).state == RunState::Ended(outcome),
        run.model.state is Ended ==> run_step(run.model, event) == run.model && run_action(
            run,
            event,
        ) is Nothing,
{
    let after = run_step(run.model, event);
    let queued = seq![ProgressMarker::Queued];
    let running = seq![ProgressMarker::Queued, ProgressMarker::Preparing, ProgressMarker::Running];
    if marks_passed(run.model.state, event).len() == 0 {
        assert(after.trail =~= run.model.trail);
    } else if run.model.state is AwaitingDirectory {
        assert(after.trail =~= running);
    } else if event == ConversionEvent::ToolReturned(ToolRun::Exited { success: true }) {
        assert(after.trail =~= running.push(ProgressMarker::Finalizing).push(
            ProgressMarker::Done,
        ));
        assert(after.trail =~= seq![
            ProgressMarker::Queued,
            ProgressMarker::Preparing,
            ProgressMarker::Running,
            ProgressMarker::Finalizing,
            ProgressMarker::Done,
        ]);
    } else {
        assert(after.trail =~= running.push(ProgressMarker::Finalizing));
        assert(after.trail =~= seq![
            ProgressMarker::Queued,
            ProgressMarker::Preparing,
            ProgressMarker::Running,
            ProgressMarker::Finalizing,
        ]);
    }
}

/// The progress of a run starts queued and only moves forward: each mark it
/// passes stands for a larger position than the one before. It passes the mark
/// of the running tool before the tool returns and the mark of the returned
/// tool before the outcome is settled; a job that has succeeded has passed
/// every mark, and only such a job is marked done.
pub proof fn lemma_marks_ascend(model: RunModel)
    requires
        model_wf(model),
    ensures
        model.trail.len() > 0,
        model.trail[0] == ProgressMarker::Queued,
        ascending(model.trail),
        model.state is AwaitingTool ==> model.trail.last() == ProgressMarker::Running,
        model.state == RunState::Ended(JobOutcome::Succeeded) <==> model.trail.last()
            == ProgressMarker::Done,
        model.state == RunState::Ended(JobOutcome::Succeeded) ==> model.trail.contains(
            ProgressMarker::Running,
        ) && model.trail.contains(ProgressMarker::Finalizing),
{
    if model.state == RunState::Ended(JobOutcome::Succeeded) {
        assert(model.trail[2] == ProgressMarker::Running);
        assert(model.trail[3] == ProgressMarker::Finalizing);
    }
}

/// Whatever is reported to a run and in whatever order, it hands on at most
/// one outcome, and exactly one if it has ended.
pub proof fn lemma_one_outcome_per_job(run: RunView, events: Seq<ConversionEvent>)
    requires
        run.model == initial_model(),
    ensures
        model_wf(run_after(run.model, events)),
        outcomes_given(run, events) == (if run_after(run.model, events).state is Ended {
            1nat
        } else {
            0nat
        }),
    decreases events.len(),
{
    if events.len() > 0 {
        lemma_one_outcome_per_job(run, events.drop_last());
        let before = RunView { model: run_after(run.model, events.drop_last()), ..run };
        lemma_run_step(before, events.last());
    }
}

/// Whatever is reported to a run and in whatever order, the tool is run for
/// its job at most once: once if the directory of its output was there, and
/// not at all if it could not be created.
pub proof fn lemma_tool_runs_at_most_once(run: RunView, events: Seq<ConversionEvent>)
    requires
        run.model == initial_model(),
    ensures
        model_wf(run_after(run.model, events)),
        tool_runs(run, events) == (if run_after(run.model, events).trail.contains(
            ProgressMarker::Running,
        ) {
            1nat
        } else {
            0nat
        }),
        run_after(run.model, events).state == RunState::Ended(
            JobOutcome::Failed(FailureReason::Setup),
        ) ==> tool_runs(run, events) == 0,
    decreases events.len(),
{
    let after = run_after(run.model, events);
    if events.len() > 0 {
        lemma_tool_runs_at_most_once(run, events.drop_last());
        let before = RunView { model: run_after(run.model, events.drop_last()), ..run };
        lemma_run_step(before, events.last());
        if before.model.trail.contains(ProgressMarker::Running) {
            assert(before.model.trail[2] == ProgressMarker::Running);
            assert(after.trail[2] == ProgressMarker::Running);
        }
    }
    if after.trail.len() >= 3 {
        assert(after.trail[2] == ProgressMarker::Running);
    } else {
        assert(after.trail[0] == ProgressMarker::Queued);
    }
}

/// Decides whether the codec tool is there, from a trial run of it: it is if
/// that run ended with a success status.
pub fn check_ffmpeg_availability(probe: ToolRun) -> (result: Result<(), ToolUnavailable>)
    ensures
        result is Ok <==> tool_succeeded(probe),
{
    match probe {
        ToolRun::Exited { success: true } => Ok(()),
        _ => Err(ToolUnavailable),
    }
}

/// Computes [`probe_invocation`].
pub fn probe_invocation_for() -> (invocation: ToolInvocation)
    ensures
        invocation@ == probe_invocation(),
{
    let mut arguments: Vec<ToolArgument> = Vec::new();
    arguments.push(word("-version"));
    assert(arguments_of(arguments@) =~= seq![ArgumentView::Text("-version"@)]);
    ToolInvocation { program: "ffmpeg".to_owned(), arguments, quiet: true }
}

/// Computes [`transcode_invocation`].
pub fn transcode_invocation_for(
    job: &ConversionJob,
    settings: &ConversionSettings,
) -> (invocation: ToolInvocation)
    ensures
        invocation@ == transcode_invocation(job@, settings.video_crf, settings.webp_quality),
{
    build_invocation(job, settings.video_crf, settings.webp_quality)
}

fn build_invocation(
    job: &ConversionJob,
    video_crf: u8,
    webp_quality: u8,
) -> (invocation: ToolInvocation)
    ensures
        invocation@ == transcode_invocation(job@, video_crf, webp_quality),
{
    ToolInvocation {
        program: "ffmpeg".to_owned(),
        arguments: build_arguments(job, video_crf, webp_quality),
        quiet: true,
    }
}

/// The argument that hands `text` on as it is.
fn word(text: &str) -> (argument: ToolArgument)
    ensures
        argument@ == ArgumentView::Text(text@),
{
    ToolArgument::Text(text.to_owned())
}

fn build_arguments(
    job: &ConversionJob,
    video_crf: u8,
    webp_quality: u8,
) -> (arguments: Vec<ToolArgument>)
    ensures
        arguments_of(arguments@) == transcode_arguments(job@, video_crf, webp_quality),
{
    let mut arguments: Vec<ToolArgument> = Vec::new();
    arguments.push(word("-i"));
    arguments.push(ToolArgument::File(job.input_path.duplicate()));
    arguments.push(word("-c:v"));
    match job.kind {
        AssetKind::Video => {
            arguments.push(word("libvpx-vp9"));
            arguments.push(word("-crf"));
            arguments.push(ToolArgument::Text(decimal_string(video_crf as u128)));
            arguments.push(word("-b:v"));
            arguments.push(word("0"));
            arguments.push(word("-c:a"));
            arguments.push(word("libopus"));
        },
        AssetKind::Image => {
            arguments.push(word("libwebp"));
            arguments.push(word("-quality"));
            arguments.push(ToolArgument::Text(decimal_string(webp_quality as u128)));
        },
    }
    arguments.push(word("-y"));
    arguments.push(ToolArgument::File(job.output_path.duplicate()));
    assert(arguments_of(arguments@) =~= transcode_arguments(job@, video_crf, webp_quality));
    arguments
}

/// The label of a job of this name and status.
pub fn label_for(status: ProgressStatus, name: &str) -> (label: String)
    ensures
        label@ == label_text(status, name@),
{
    let mut text: Vec<char> = Vec::new();
    match status {
        ProgressStatus::Active => {
            push_text(&mut text, "Converting ");
        },
        ProgressStatus::Succeeded => {
            text.push('\u{2705}');
            text.push(' ');
        },
        ProgressStatus::Failed => {
            text.push('\u{274c}');
            text.push(' ');
        },
    }
    let ghost head = text@;
    push_text(&mut text, name);
    assert(match status {
        ProgressStatus::Active => head =~= "Converting "@,
        ProgressStatus::Succeeded => head =~= seq!['\u{2705}', ' '],
        ProgressStatus::Failed => head =~= seq!['\u{274c}', ' '],
    });
    string_of(&text)
}

/// One conversion under way.
pub struct ConversionRun {
    job: ConversionJob,
    video_crf: u8,
    webp_quality: u8,
    state: RunState,
    trail: Vec<ProgressMarker>,
    progress: JobProgress,
}

impl View for ConversionRun {
    type V = RunView;

    closed spec fn view(&self) -> RunView {
        RunView {
            job: self.job@,
            video_crf: self.video_crf,
            webp_quality: self.webp_quality,
            model: RunModel {
                state: self.state,
                trail: self.trail@,
                status: self.progress.status,
            },
            label: self.progress.label@,
        }
    }
}

impl ConversionRun {
    /// The mark that the progress shows is the last that the run has passed.
    pub closed spec fn shows_last_mark(&self) -> bool {
        self.trail@.len() > 0 && self.progress.marker == self.trail@.last()
    }

    /// The progress fits the state of the run, and the label fits both.
    pub open spec fn wf(&self) -> bool {
        &&& model_wf(self@.model)
        &&& self.shows_last_mark()
        &&& self@.label == label_text(self@.model.status, display_name(self@.job.input_path))
    }

    /// A run for `job` under `settings`, waiting for its start.
    pub fn new(job: ConversionJob, settings: &ConversionSettings) -> (run: ConversionRun)
        ensures
            run.wf(),
            run@ == initial_run(job@, settings.video_crf, settings.webp_quality),
    {
        let label = match job.input_path.file_name() {
            Some(name) => label_for(ProgressStatus::Active, name.as_str()),
            None => label_for(ProgressStatus::Active, "unknown"),
        };
        let mut trail: Vec<ProgressMarker> = Vec::new();
        trail.push(ProgressMarker::Queued);
        assert(trail@ =~= seq![ProgressMarker::Queued]);
        ConversionRun {
            job,
            video_crf: settings.video_crf,
            webp_quality: settings.webp_quality,
            state: RunState::Created,
            trail,
            progress: JobProgress {
                marker: ProgressMarker::Queued,
                status: ProgressStatus::Active,
                label,
            },
        }
    }

    /// The job of this run.
    pub fn job(&self) -> (job: &ConversionJob)
        ensures
            job@ == self@.job,
    {
        &self.job
    }

    /// What the run waits for.
    pub fn state(&self) -> (state: RunState)
        ensures
            state == self@.model.state,
    {
        self.state
    }

    /// The marks that the progress has passed so far, in order.
    pub fn trail(&self) -> (trail: &Vec<ProgressMarker>)
        ensures
            trail@ == self@.model.trail,
    {
        &self.trail
    }

    /// The progress to show.
    pub fn progress(&self) -> (progress: &JobProgress)
        requires
            self.wf(),
        ensures
            progress.marker == self@.model.trail.last(),
            progress.status == self@.model.status,
            progress.label@ == self@.label,
    {
        &self.progress
    }

    /// The position of the progress on a scale of 100.
    pub fn position(&self) -> (position: u64)
        requires
            self.wf(),
        ensures
            position == marker_position(self@.model.trail.last()),
    {
        position_of(self.progress.marker)
    }

    /// Takes a report and answers with what is to be done next.
    pub fn step(&mut self, event: ConversionEvent) -> (action: ConversionAction)
        requires
            old(self).wf(),
        ensures
            final(self).wf(),
            final(self)@ == run_view_step(old(self)@, event),
            action@ == run_action(old(self)@, event),
    {
        proof {
            lemma_run_step(self@, event);
            assert(self.trail@ + Seq::<ProgressMarker>::empty() =~= self.trail@);
        }
        match self.state {
            RunState::Created => match event {
                ConversionEvent::Started => {
                    self.state = RunState::AwaitingDirectory;
                    ConversionAction::CreateDirectory(self.job.output_path.directory())
                },
                _ => ConversionAction::Nothing,
            },
            RunState::AwaitingDirectory => match event {
                ConversionEvent::DirectoryCreated { ok } => {
                    if ok {
                        self.state = RunState::AwaitingTool;
                        self.pass(ProgressMarker::Preparing);
                        self.pass(ProgressMarker::Running);
                        assert(self.trail@ =~= old(self).trail@ + marks_passed(
                            old(self).state,
                            event,
                        ));
                        ConversionAction::RunTool(
                            build_invocation(&self.job, self.video_crf, self.webp_quality),
                        )
                    } else {
                        self.end(JobOutcome::Failed(FailureReason::Setup))
                    }
                },
                _ => ConversionAction::Nothing,
            },
            RunState::AwaitingTool => match event {
                ConversionEvent::ToolReturned(tool) => match tool {
                    ToolRun::LaunchFailed => self.end(JobOutcome::Failed(FailureReason::Encode)),
                    ToolRun::Exited { success } => {
                        self.pass(ProgressMarker::Finalizing);
                        if success {
                            self.pass(ProgressMarker::Done);
                        }
                        assert(self.trail@ =~= old(self).trail@ + marks_passed(
                            old(self).state,
                            event,
                        ));
                        if success {
                            self.end(JobOutcome::Succeeded)
                        } else {
                            self.end(JobOutcome::Failed(FailureReason::Encode))
                        }
                    },
                },
                _ => ConversionAction::Nothing,
            },
            RunState::Ended(_) => ConversionAction::Nothing,
        }
    }

    /// Moves the progress on to `marker`.
    fn pass(&mut self, marker: ProgressMarker)
        ensures
            final(self)@ == (RunView {
                model: RunModel { trail: old(self)@.model.trail.push(marker), ..old(self)@.model },
                ..old(self)@
            }),
            final(self).shows_last_mark(),
    {
        self.trail.push(marker);
        self.progress.marker = marker;
    }

    /// Ends the run with `outcome`.
    fn end(&mut self, outcome: JobOutcome) -> (action: ConversionAction)
        requires
            old(self).shows_last_mark(),
        ensures
            final(self).shows_last_mark(),
            final(self)@ == (RunView {
                model: RunModel {
                    state: RunState::Ended(outcome),
                    trail: old(self)@.model.trail,
                    status: status_of(RunState::Ended(outcome)),
                },
                label: label_text(
                    status_of(RunState::Ended(outcome)),
                    display_name(old(self)@.job.input_path),
                ),
                ..old(self)@
            }),
            action@ == ActionView::Finish(outcome),
    {
        let status = match outcome {
            JobOutcome::Succeeded => ProgressStatus::Succeeded,
            JobOutcome::Failed(_) => ProgressStatus::Failed,
        };
        let label = match self.job.input_path.file_name() {
            Some(name) => label_for(status, name.as_str()),
            None => label_for(status, "unknown"),
        };
        self.state = RunState::Ended(outcome);
        self.progress.status = status;
        self.progress.label = label;
        ConversionAction::Finish(outcome)
    }
}

/// The position on a scale of 100 that a mark stands for.
pub fn position_of(marker: ProgressMarker) -> (position: u64)
    ensures
        position == marker_position(marker),
{
    match marker {
        ProgressMarker::Queued => 0,
        ProgressMarker::Preparing => 10,
        ProgressMarker::Running => 20,
        ProgressMarker::Finalizing => 90,
        ProgressMarker::Done => 100,
    }
}

} // verus!

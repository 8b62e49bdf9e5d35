use asset_optimizer::catalog::{AssetKind, ConversionJob};
use asset_optimizer::conversion::{
    check_ffmpeg_availability, label_for, position_of, probe_invocation_for,
    transcode_invocation_for, ConversionAction, ConversionEvent, ConversionRun, ProgressMarker,
    ProgressStatus, RunState, ToolArgument, ToolInvocation, ToolRun, ToolUnavailable,
};
use asset_optimizer::outcome::{FailureReason, JobOutcome};
use asset_optimizer::path::AssetPath;
use asset_optimizer::settings::ConversionSettings;

fn path(parts: &[&str]) -> AssetPath {
    AssetPath::new(parts.iter().map(|p| p.to_string()).collect())
}

fn settings() -> ConversionSettings {
    ConversionSettings::new(30, 85, path(&["out"]), 4, false).unwrap()
}

fn video() -> ConversionJob {
    ConversionJob {
        input_path: path(&["in", "a", "clip.mp4"]),
        output_path: path(&["out", "a", "clip.webm"]),
        kind: AssetKind::Video,
    }
}

fn image() -> ConversionJob {
    ConversionJob {
        input_path: path(&["in", "logo.png"]),
        output_path: path(&["out", "logo.webp"]),
        kind: AssetKind::Image,
    }
}

fn word(text: &str) -> ToolArgument {
    ToolArgument::Text(text.to_string())
}

fn file(parts: &[&str]) -> ToolArgument {
    ToolArgument::File(path(parts))
}

#[test]
fn video_arguments() {
    let invocation = transcode_invocation_for(&video(), &settings());
    assert_eq!(invocation.program, "ffmpeg");
    assert!(invocation.quiet);
    assert_eq!(
        invocation.arguments,
        vec![
            word("-i"),
            file(&["in", "a", "clip.mp4"]),
            word("-c:v"),
            word("libvpx-vp9"),
            word("-crf"),
            word("30"),
            word("-b:v"),
            word("0"),
            word("-c:a"),
            word("libopus"),
            word("-y"),
            file(&["out", "a", "clip.webm"]),
        ]
    );
}

#[test]
fn image_arguments() {
    let invocation = transcode_invocation_for(&image(), &settings());
    assert_eq!(invocation.program, "ffmpeg");
    assert!(invocation.quiet);
    assert_eq!(
        invocation.arguments,
        vec![
            word("-i"),
            file(&["in", "logo.png"]),
            word("-c:v"),
            word("libwebp"),
            word("-quality"),
            word("85"),
            word("-y"),
            file(&["out", "logo.webp"]),
        ]
    );
}

#[test]
fn arguments_carry_the_quality_of_their_own_kind() {
    let s = ConversionSettings::new(0, 255, path(&["out"]), 1, false).unwrap();
    assert_eq!(transcode_invocation_for(&video(), &s).arguments[5], word("0"));
    assert_eq!(transcode_invocation_for(&image(), &s).arguments[5], word("255"));
}

#[test]
fn the_tool_and_its_trial() {
    assert_eq!(
        probe_invocation_for(),
        ToolInvocation {
            program: "ffmpeg".to_string(),
            arguments: vec![word("-version")],
            quiet: true
        }
    );
    assert_eq!(check_ffmpeg_availability(ToolRun::Exited { success: true }), Ok(()));
    assert_eq!(
        check_ffmpeg_availability(ToolRun::Exited { success: false }),
        Err(ToolUnavailable)
    );
    assert_eq!(check_ffmpeg_availability(ToolRun::LaunchFailed), Err(ToolUnavailable));
}

#[test]
fn labels() {
    assert_eq!(label_for(ProgressStatus::Active, "clip.mp4"), "Converting clip.mp4");
    assert_eq!(label_for(ProgressStatus::Succeeded, "clip.mp4"), "\u{2705} clip.mp4");
    assert_eq!(label_for(ProgressStatus::Failed, "clip.mp4"), "\u{274c} clip.mp4");
    assert_eq!(label_for(ProgressStatus::Active, ""), "Converting ");
}

#[test]
fn a_new_run_is_queued() {
    let run = ConversionRun::new(video(), &settings());
    assert_eq!(run.state(), RunState::Created);
    assert_eq!(run.position(), 0);
    assert_eq!(run.progress().marker, ProgressMarker::Queued);
    assert_eq!(run.progress().status, ProgressStatus::Active);
    assert_eq!(run.progress().label, "Converting clip.mp4");
    assert_eq!(run.trail(), &vec![ProgressMarker::Queued]);
    assert_eq!(run.job(), &video());
}

#[test]
fn marks_stand_for_positions() {
    assert_eq!(position_of(ProgressMarker::Queued), 0);
    assert_eq!(position_of(ProgressMarker::Preparing), 10);
    assert_eq!(position_of(ProgressMarker::Running), 20);
    assert_eq!(position_of(ProgressMarker::Finalizing), 90);
    assert_eq!(position_of(ProgressMarker::Done), 100);
}

#[test]
fn a_successful_run() {
    let mut run = ConversionRun::new(video(), &settings());
    assert_eq!(
        run.step(ConversionEvent::Started),
        ConversionAction::CreateDirectory(path(&["out", "a"]))
    );
    assert_eq!(run.state(), RunState::AwaitingDirectory);
    assert_eq!(run.position(), 0);
    assert_eq!(
        run.step(ConversionEvent::DirectoryCreated { ok: true }),
        ConversionAction::RunTool(transcode_invocation_for(&video(), &settings()))
    );
    assert_eq!(run.state(), RunState::AwaitingTool);
    assert_eq!(run.position(), 20);
    assert_eq!(run.progress().label, "Converting clip.mp4");
    assert_eq!(
        run.step(ConversionEvent::ToolReturned(ToolRun::Exited { success: true })),
        ConversionAction::Finish(JobOutcome::Succeeded)
    );
    assert_eq!(run.state(), RunState::Ended(JobOutcome::Succeeded));
    assert_eq!(run.position(), 100);
    assert_eq!(run.progress().status, ProgressStatus::Succeeded);
    assert_eq!(run.progress().label, "\u{2705} clip.mp4");
    assert_eq!(
        run.trail(),
        &vec![
            ProgressMarker::Queued,
            ProgressMarker::Preparing,
            ProgressMarker::Running,
            ProgressMarker::Finalizing,
            ProgressMarker::Done,
        ]
    );
}

#[test]
fn a_directory_that_cannot_be_created_fails_the_job_before_the_tool_runs() {
    let mut run = ConversionRun::new(image(), &settings());
    run.step(ConversionEvent::Started);
    let outcome = JobOutcome::Failed(FailureReason::Setup);
    assert_eq!(
        run.step(ConversionEvent::DirectoryCreated { ok: false }),
        ConversionAction::Finish(outcome)
    );
    assert_eq!(run.state(), RunState::Ended(outcome));
    assert_eq!(run.position(), 0);
    assert_eq!(run.progress().status, ProgressStatus::Failed);
    assert_eq!(run.progress().label, "\u{274c} logo.png");
    assert_eq!(
        run.step(ConversionEvent::ToolReturned(ToolRun::Exited { success: true })),
        ConversionAction::Nothing
    );
    assert_eq!(run.state(), RunState::Ended(outcome));
}

#[test]
fn a_failure_status_fails_the_job() {
    let mut run = ConversionRun::new(image(), &settings());
    run.step(ConversionEvent::Started);
    run.step(ConversionEvent::DirectoryCreated { ok: true });
    let outcome = JobOutcome::Failed(FailureReason::Encode);
    assert_eq!(
        run.step(ConversionEvent::ToolReturned(ToolRun::Exited { success: false })),
        ConversionAction::Finish(outcome)
    );
    assert_eq!(run.state(), RunState::Ended(outcome));
    assert_eq!(run.position(), 90);
    assert_eq!(run.progress().marker, ProgressMarker::Finalizing);
    assert_eq!(run.progress().label, "\u{274c} logo.png");
    assert_eq!(
        run.trail(),
        &vec![
            ProgressMarker::Queued,
            ProgressMarker::Preparing,
            ProgressMarker::Running,
            ProgressMarker::Finalizing,
        ]
    );
}

#[test]
fn a_tool_that_does_not_start_fails_the_job() {
    let mut run = ConversionRun::new(video(), &settings());
    run.step(ConversionEvent::Started);
    run.step(ConversionEvent::DirectoryCreated { ok: true });
    let outcome = JobOutcome::Failed(FailureReason::Encode);
    assert_eq!(
        run.step(ConversionEvent::ToolReturned(ToolRun::LaunchFailed)),
        ConversionAction::Finish(outcome)
    );
    assert_eq!(run.position(), 20);
    assert_eq!(run.progress().status, ProgressStatus::Failed);
    assert_eq!(run.trail().len(), 3);
}

#[test]
fn reports_out_of_turn_are_ignored() {
    let mut run = ConversionRun::new(video(), &settings());
    assert_eq!(
        run.step(ConversionEvent::DirectoryCreated { ok: true }),
        ConversionAction::Nothing
    );
    assert_eq!(
        run.step(ConversionEvent::ToolReturned(ToolRun::Exited { success: true })),
        ConversionAction::Nothing
    );
    assert_eq!(run.state(), RunState::Created);
    run.step(ConversionEvent::Started);
    assert_eq!(run.step(ConversionEvent::Started), ConversionAction::Nothing);
    assert_eq!(
        run.step(ConversionEvent::ToolReturned(ToolRun::LaunchFailed)),
        ConversionAction::Nothing
    );
    assert_eq!(run.state(), RunState::AwaitingDirectory);
    run.step(ConversionEvent::DirectoryCreated { ok: true });
    assert_eq!(
        run.step(ConversionEvent::DirectoryCreated { ok: false }),
        ConversionAction::Nothing
    );
    assert_eq!(run.state(), RunState::AwaitingTool);
}

#[test]
fn an_outcome_is_given_once() {
    let mut run = ConversionRun::new(video(), &settings());
    let events = [
        ConversionEvent::Started,
        ConversionEvent::DirectoryCreated { ok: true },
        ConversionEvent::ToolReturned(ToolRun::Exited { success: false }),
        ConversionEvent::ToolReturned(ToolRun::Exited { success: true }),
        ConversionEvent::Started,
        ConversionEvent::DirectoryCreated { ok: true },
        ConversionEvent::ToolReturned(ToolRun::Exited { success: true }),
    ];
    let mut finishes = 0;
    let mut last = 0;
    for event in events {
        if let ConversionAction::Finish(_) = run.step(event) {
            finishes += 1;
        }
        assert!(run.position() >= last);
        last = run.position();
    }
    assert_eq!(finishes, 1);
    assert_eq!(run.state(), RunState::Ended(JobOutcome::Failed(FailureReason::Encode)));
}

#[test]
fn a_file_in_the_working_directory_needs_no_directory() {
    let job = ConversionJob {
        input_path: path(&["a.png"]),
        output_path: path(&["a.webp"]),
        kind: AssetKind::Image,
    };
    let mut run = ConversionRun::new(job, &settings());
    assert_eq!(run.step(ConversionEvent::Started), ConversionAction::CreateDirectory(path(&[])));
}

#[test]
fn a_job_without_a_name_is_shown_as_unknown() {
    let job = ConversionJob {
        input_path: path(&[]),
        output_path: path(&[]),
        kind: AssetKind::Image,
    };
    let mut run = ConversionRun::new(job, &settings());
    assert_eq!(run.progress().label, "Converting unknown");
    assert_eq!(run.step(ConversionEvent::Started), ConversionAction::CreateDirectory(path(&[])));
    run.step(ConversionEvent::DirectoryCreated { ok: false });
    assert_eq!(run.progress().label, "\u{274c} unknown");
}

use gitlab_runner::client::{
    ArtifactFormat, ArtifactWhen, Client, ClientMetadata, Error, GitInfo, JobArtifact, JobResponse,
    JobState, JobStep, JobStepWhen, JobUpdateReply, Method, Phase, TraceReply,
};
use gitlab_runner::run::{
    build_dir_failure, ArtifactAction, ArtifactEvent, ArtifactSteps, JobAction, JobEvent, JobSteps,
    ReportAction, ReportEvent, ReportStage, Run, TickAction,
};

const SECOND: u64 = 1_000_000_000;

fn artifact(when: ArtifactWhen) -> JobArtifact {
    JobArtifact {
        name: None,
        untracked: false,
        paths: vec!["*".to_string()],
        when,
        artifact_type: "archive".to_string(),
        artifact_format: ArtifactFormat::Zip,
        expire_in: None,
    }
}

fn response(phases: &[Phase], artifacts: usize) -> JobResponse {
    JobResponse {
        id: 12,
        token: "job-token-12".to_string(),
        allow_git_fetch: true,
        git_info: GitInfo {
            repo_url: String::new(),
            sha: String::new(),
            refspecs: Vec::new(),
            depth: 0,
        },
        variables: Vec::new(),
        steps: phases
            .iter()
            .map(|name| JobStep {
                name: *name,
                script: vec!["dummy".to_string()],
                timeout: 3600,
                when: JobStepWhen::OnSuccess,
                allow_failure: false,
            })
            .collect(),
        dependencies: Vec::new(),
        artifacts: (0..artifacts).map(|_| artifact(ArtifactWhen::OnSuccess)).collect(),
        token_mask_prefixes: vec!["glpat-".to_string()],
    }
}

fn run() -> Run {
    let client = Client::new(
        "https://gitlab.example.com".to_string(),
        "token".to_string(),
        "s_1".to_string(),
        ClientMetadata::default(),
    );
    Run::new(client, response(&[Phase::Script], 0), 100 * SECOND)
}

fn actions(response: &JobResponse, events: &[(JobEvent, bool)]) -> Vec<JobAction> {
    let mut steps = JobSteps::new();
    events
        .iter()
        .map(|(event, cancelled)| steps.next(response, *event, *cancelled))
        .collect()
}

#[test]
fn steps_in_order() {
    let response = response(&[Phase::AfterScript, Phase::Script], 2);
    assert_eq!(
        actions(
            &response,
            &[
                (JobEvent::BuildDirCreated(true), false),
                (JobEvent::HandlerCreated(true), false),
                (JobEvent::StepDone(true), false),
                (JobEvent::StepDone(false), false),
                (JobEvent::ArtifactDone(true), false),
                (JobEvent::ArtifactDone(true), false),
                (JobEvent::CleanedUp, false),
                (JobEvent::BuildDirRemoved, false),
            ]
        ),
        vec![
            JobAction::CreateHandler,
            JobAction::RunStep(Phase::Script),
            JobAction::RunStep(Phase::AfterScript),
            JobAction::ProcessArtifact(0),
            JobAction::ProcessArtifact(1),
            JobAction::Cleanup,
            JobAction::RemoveBuildDir,
            JobAction::Finish(true),
        ]
    );
}

#[test]
fn failures_end_a_job() {
    let one = response(&[Phase::Script], 1);
    let dir = (JobEvent::BuildDirCreated(true), false);
    let handler = (JobEvent::HandlerCreated(true), false);
    let end = [(JobEvent::CleanedUp, false), (JobEvent::BuildDirRemoved, false)];
    assert_eq!(
        actions(&one, &[(JobEvent::BuildDirCreated(false), false)]),
        vec![JobAction::Finish(false)]
    );
    assert_eq!(
        actions(&one, &[dir, (JobEvent::HandlerCreated(false), false)]).last(),
        Some(&JobAction::Finish(false))
    );
    // A failed script still has its artifacts processed.
    let failed = [dir, handler, (JobEvent::StepDone(false), false), (JobEvent::ArtifactDone(true), false), end[0], end[1]];
    let done = actions(&one, &failed);
    assert_eq!(done[2], JobAction::ProcessArtifact(0));
    assert_eq!(done[5], JobAction::Finish(false));
    // A failed artifact ends the artifacts.
    let two = response(&[Phase::Script], 2);
    let failed = [dir, handler, (JobEvent::StepDone(true), false), (JobEvent::ArtifactDone(false), false), end[0], end[1]];
    let done = actions(&two, &failed);
    assert_eq!(done[3], JobAction::Cleanup);
    assert_eq!(done[5], JobAction::Finish(false));
    // Without a script the job fails, but it is cleaned up.
    let none = response(&[Phase::AfterScript], 1);
    let done = actions(&none, &[dir, handler, end[0], end[1]]);
    assert_eq!(done[1], JobAction::Cleanup);
    assert_eq!(done[3], JobAction::Finish(false));
}

#[test]
fn cancelled_jobs_are_cleaned_up() {
    let response = response(&[Phase::Script, Phase::AfterScript], 1);
    let dir = (JobEvent::BuildDirCreated(true), false);
    let end = [(JobEvent::CleanedUp, true), (JobEvent::BuildDirRemoved, true)];
    let done = actions(&response, &[dir, (JobEvent::HandlerCreated(true), true), end[0], end[1]]);
    assert_eq!(
        done,
        vec![
            JobAction::CreateHandler,
            JobAction::Cleanup,
            JobAction::RemoveBuildDir,
            JobAction::Finish(true),
        ]
    );
    let handler = (JobEvent::HandlerCreated(true), false);
    let done = actions(&response, &[dir, handler, (JobEvent::StepDone(true), true)]);
    assert_eq!(done[2], JobAction::Cleanup);
    let script = (JobEvent::StepDone(true), false);
    let done = actions(&response, &[dir, handler, script, (JobEvent::StepDone(true), true)]);
    assert_eq!(done[3], JobAction::Cleanup);
}

#[test]
fn missing_directories_are_told() {
    assert_eq!(build_dir_failure("denied"), "Failed to remove build dir: denied");
}

fn artifact_actions(
    when: ArtifactWhen,
    script: Result<(), ()>,
    events: &[ArtifactEvent],
) -> Vec<ArtifactAction> {
    let (mut steps, first) = ArtifactSteps::start(&artifact(when), script);
    let mut done = vec![first];
    for event in events {
        done.push(steps.next(*event));
    }
    done
}

#[test]
fn artifacts_are_uploaded_when_wanted() {
    let start = |when, script| artifact_actions(when, script, &[])[0];
    assert_eq!(start(ArtifactWhen::Always, Ok(())), ArtifactAction::CreateUploader);
    assert_eq!(start(ArtifactWhen::Always, Err(())), ArtifactAction::CreateUploader);
    assert_eq!(start(ArtifactWhen::OnSuccess, Ok(())), ArtifactAction::CreateUploader);
    assert_eq!(start(ArtifactWhen::OnSuccess, Err(())), ArtifactAction::Finish(true));
    assert_eq!(start(ArtifactWhen::OnFailure, Ok(())), ArtifactAction::Finish(true));
    assert_eq!(start(ArtifactWhen::OnFailure, Err(())), ArtifactAction::CreateUploader);
}

#[test]
fn selected_files_are_uploaded() {
    assert_eq!(
        artifact_actions(
            ArtifactWhen::Always,
            Ok(()),
            &[
                ArtifactEvent::UploaderCreated(true),
                ArtifactEvent::FilesListed(true),
                ArtifactEvent::FileTaken(false),
                ArtifactEvent::FileTaken(true),
                ArtifactEvent::FileBegun(true),
                ArtifactEvent::DataOpened(true),
                ArtifactEvent::DataCopied(true),
                ArtifactEvent::NoFileLeft,
                ArtifactEvent::Uploaded(true),
            ]
        ),
        vec![
            ArtifactAction::CreateUploader,
            ArtifactAction::ListFiles,
            ArtifactAction::TakeFile,
            ArtifactAction::TakeFile,
            ArtifactAction::BeginFile,
            ArtifactAction::OpenData,
            ArtifactAction::CopyData,
            ArtifactAction::TakeFile,
            ArtifactAction::Upload,
            ArtifactAction::Finish(true),
        ]
    );
}

#[test]
fn nothing_is_uploaded_without_files() {
    let done = artifact_actions(
        ArtifactWhen::Always,
        Ok(()),
        &[
            ArtifactEvent::UploaderCreated(true),
            ArtifactEvent::FilesListed(true),
            ArtifactEvent::FileTaken(false),
            ArtifactEvent::NoFileLeft,
        ],
    );
    assert_eq!(done.last(), Some(&ArtifactAction::Finish(true)));
}

#[test]
fn failures_end_an_artifact() {
    let ok = [
        ArtifactEvent::UploaderCreated(true),
        ArtifactEvent::FilesListed(true),
        ArtifactEvent::FileTaken(true),
        ArtifactEvent::FileBegun(true),
        ArtifactEvent::DataOpened(true),
        ArtifactEvent::DataCopied(true),
        ArtifactEvent::NoFileLeft,
    ];
    let failures = [
        (0, ArtifactEvent::UploaderCreated(false)),
        (1, ArtifactEvent::FilesListed(false)),
        (3, ArtifactEvent::FileBegun(false)),
        (4, ArtifactEvent::DataOpened(false)),
        (5, ArtifactEvent::DataCopied(false)),
        (7, ArtifactEvent::Uploaded(false)),
    ];
    for (at, failure) in failures {
        let mut events = ok[0..at].to_vec();
        events.push(failure);
        let done = artifact_actions(ArtifactWhen::Always, Ok(()), &events);
        assert_eq!(done.last(), Some(&ArtifactAction::Finish(false)));
    }
}

#[test]
fn ticks_send_the_log_first() {
    let mut run = run();
    let mut log = run.new_log();
    log.trace(b"glpat-abc\n");
    match run.tick(&mut log, 200 * SECOND) {
        TickAction::SendTrace(buf) => assert_eq!(buf, b"glpat-[MASKED]\n"),
        _ => panic!("expected a trace"),
    }
    assert_eq!(run.report.last_alive, 200 * SECOND);
    assert!(matches!(run.tick(&mut log, 230 * SECOND), TickAction::Nothing));
    assert_eq!(run.report.last_alive, 200 * SECOND);
    assert!(matches!(run.tick(&mut log, 230 * SECOND + 1), TickAction::KeepAlive));
    assert_eq!(run.report.last_alive, 230 * SECOND + 1);
    // A clock that stands still or goes back is no reason to report.
    assert!(matches!(run.tick(&mut log, 1), TickAction::Nothing));
}

#[test]
fn sent_logs_are_counted() {
    let mut run = run();
    let reply = TraceReply { trace_update_interval: Some(3) };
    assert_eq!(run.trace_sent(10, Ok(reply)), Some(3));
    assert_eq!(run.report.log_offset, 10);
    assert_eq!(run.trace_sent(5, Err(Error::UnexpectedStatus(500))), None);
    assert_eq!(run.report.log_offset, 10);
    assert!(!run.report.cancelled);
    let request = run.trace_request(7).unwrap().unwrap();
    assert_eq!(request.method, Method::Patch);
    assert_eq!(request.headers[1].value, "10-16");
    assert_eq!(run.trace_sent(7, Err(Error::JobCancelled)), None);
    assert!(run.report.cancelled);
}

#[test]
fn intervals_are_adopted() {
    let mut run = run();
    assert_eq!(run.adopt_interval(None), None);
    assert_eq!(run.adopt_interval(Some(3)), None);
    assert_eq!(run.adopt_interval(Some(30)), Some(30));
    assert_eq!(run.adopt_interval(Some(30)), None);
    assert_eq!(run.report.interval, 30);
}

#[test]
fn final_states() {
    let mut run = run();
    assert_eq!(run.final_state(true), Some(JobState::Success));
    assert_eq!(run.final_state(false), Some(JobState::Failed));
    run.updated(Ok(JobUpdateReply { trace_update_interval: None }));
    run.updated(Err(Error::UnexpectedStatus(403)));
    assert!(!run.report.cancelled);
    run.updated(Err(Error::JobCancelled));
    assert_eq!(run.final_state(true), None);
    assert_eq!(run.final_state(false), None);
    let (request, update) = run.update_request(JobState::Running).unwrap();
    assert_eq!(request.url, "https://gitlab.example.com/api/v4/jobs/12");
    assert_eq!(update.token, "job-token-12");
}

fn accepted(interval: u64) -> ReportEvent {
    ReportEvent::TraceSent(Ok(TraceReply { trace_update_interval: Some(interval) }))
}

fn updated() -> ReportEvent {
    ReportEvent::Updated(Ok(JobUpdateReply { trace_update_interval: None }))
}

#[test]
fn reports_of_a_run() {
    let mut run = run();
    let mut log = run.new_log();
    let wait = run.next(&mut log, ReportEvent::Tick(101 * SECOND));
    assert!(matches!(wait, ReportAction::Wait(None)));
    log.trace(b"abc");
    match run.next(&mut log, ReportEvent::Tick(102 * SECOND)) {
        ReportAction::SendTrace(buf) => assert_eq!(buf, b"abc"),
        _ => panic!("expected a trace"),
    }
    assert_eq!(run.stage, ReportStage::TickTrace(3));
    assert!(matches!(run.next(&mut log, accepted(30)), ReportAction::Wait(Some(30))));
    assert_eq!(run.stage, ReportStage::Ticking);
    let alive = run.next(&mut log, ReportEvent::Tick(133 * SECOND));
    assert!(matches!(alive, ReportAction::SendState(JobState::Running)));
    assert!(matches!(run.next(&mut log, updated()), ReportAction::Wait(None)));

    // The rest of the log comes before the final state.
    log.trace(b"de");
    match run.next(&mut log, ReportEvent::Ended(true)) {
        ReportAction::SendTrace(buf) => assert_eq!(buf, b"de"),
        _ => panic!("expected the rest of the log"),
    }
    assert_eq!(run.stage, ReportStage::RestTrace(2, true));
    let end = run.next(&mut log, accepted(3));
    assert!(matches!(end, ReportAction::SendState(JobState::Success)));
    assert_eq!(run.stage, ReportStage::FinalUpdate);
    assert!(matches!(run.next(&mut log, updated()), ReportAction::Finish));
    assert_eq!(run.stage, ReportStage::Done);
    assert_eq!(run.report.log_offset, 5);
    assert_eq!(run.report.interval, 30);
}

#[test]
fn failed_jobs_are_reported() {
    let mut run = run();
    let mut log = run.new_log();
    let end = run.next(&mut log, ReportEvent::Ended(false));
    assert!(matches!(end, ReportAction::SendState(JobState::Failed)));
    let failed = ReportEvent::Updated(Err(Error::UnexpectedStatus(500)));
    assert!(matches!(run.next(&mut log, failed), ReportAction::Finish));
}

#[test]
fn cancelled_jobs_report_no_end() {
    // The server says so in reply to the rest of the log, or earlier.
    let mut first = run();
    let mut log = first.new_log();
    log.trace(b"rest");
    first.next(&mut log, ReportEvent::Ended(true));
    let cancelled = ReportEvent::TraceSent(Err(Error::JobCancelled));
    assert!(matches!(first.next(&mut log, cancelled), ReportAction::Finish));
    assert_eq!(first.stage, ReportStage::Done);

    let mut second = run();
    let mut log = second.new_log();
    second.next(&mut log, ReportEvent::Tick(140 * SECOND));
    assert_eq!(second.stage, ReportStage::TickUpdate);
    let cancelled = ReportEvent::Updated(Err(Error::JobCancelled));
    assert!(matches!(second.next(&mut log, cancelled), ReportAction::Wait(None)));
    assert!(matches!(second.next(&mut log, ReportEvent::Ended(true)), ReportAction::Finish));
}

#[test]
fn pieces_start_where_the_accepted_ones_end() {
    let mut run = run();
    let mut log = run.new_log();
    let mut ranges = Vec::new();
    for (piece, ok) in [("abcd", true), ("ef", false), ("ghi", true), ("j", false), ("kl", true)] {
        log.trace(piece.as_bytes());
        run.next(&mut log, ReportEvent::Tick(101 * SECOND));
        let request = run.trace_request(piece.len() as u64).unwrap().unwrap();
        ranges.push(request.headers[1].value.clone());
        let event = if ok {
            accepted(3)
        } else {
            ReportEvent::TraceSent(Err(Error::UnexpectedStatus(500)))
        };
        run.next(&mut log, event);
    }
    assert_eq!(ranges, vec!["0-3", "4-5", "4-6", "7-7", "7-8"]);
    assert_eq!(run.report.log_offset, 9);
}

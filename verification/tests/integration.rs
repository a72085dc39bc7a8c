//! A runner and a server that talk to each other, without a network between them.
use flate2::read::GzDecoder;
use gitlab_runner::artifact::Artifact;
use gitlab_runner::client::{
    variable_hash, ApiRequest, ArtifactFormat, ArtifactWhen, Client, HttpReply, JobArtifact,
    JobArtifactFile, JobDependency, JobOffer, JobResponse, JobState, JobStep, JobStepWhen,
    JobUpdate, JobVariable, Method, Phase, UploadForm,
};
use gitlab_runner::job::{ArtifactCache, DownloadPlan, Job, JobLog};
use gitlab_runner::mock::api::{read_form, route, JobPayload, MockReply, Route};
use gitlab_runner::logging::{Field, GitlabLayer, SpanMarks};
use gitlab_runner::mock::job::{
    MockJob, MockJobArtifactWhen, MockJobBuilder, MockJobState, MockJobStepName, MockJobStepWhen,
};
use gitlab_runner::mock::server::{n_requests, GitlabRunnerMock, MockJobs};
use gitlab_runner::run::{
    upload_name, ArtifactAction, ArtifactEvent, ArtifactSteps, JobAction, JobEvent, JobSteps,
    ReportAction, ReportEvent, ReportStage, Run,
};
use gitlab_runner::runlist::RunList;
use gitlab_runner::runner::{LoopAction, ReceivedJob, RequestOutcome, Runner, RunnerBuilder};
use gitlab_runner::uploader::Uploader;
use std::io::{Cursor, Read};

const SECOND: u64 = 1_000_000_000;

type Files = Vec<(&'static str, &'static [u8])>;

struct World {
    jobs: MockJobs,
    server: GitlabRunnerMock,
    runner: Runner,
    list: RunList<()>,
    paths: Vec<String>,
    now: u64,
    next_tick: u64,
}

fn header(request: &ApiRequest, name: &str) -> Option<String> {
    request
        .headers
        .iter()
        .find(|h| h.name == name)
        .map(|h| h.value.clone())
}

fn to_http(reply: MockReply) -> HttpReply {
    HttpReply {
        status: reply.status,
        job_status: reply.job_status.map(|s| s.to_string().into_bytes()),
        trace_update_interval: reply.update_interval.map(|n| n.to_string().into_bytes()),
    }
}

fn to_response(payload: &JobPayload) -> JobResponse {
    let job = payload.job;
    JobResponse {
        id: job.id(),
        token: job.token().to_string(),
        allow_git_fetch: true,
        git_info: payload.git_info.clone(),
        variables: variable_hash(
            job.variables()
                .iter()
                .map(|v| JobVariable {
                    key: v.key.clone(),
                    value: v.value.clone(),
                    public: v.public,
                    masked: v.masked,
                })
                .collect(),
        ),
        steps: job
            .steps()
            .iter()
            .map(|s| JobStep {
                name: match s.name {
                    MockJobStepName::Script => Phase::Script,
                    MockJobStepName::AfterScript => Phase::AfterScript,
                },
                script: s.script.clone(),
                timeout: s.timeout as u32,
                when: match s.when {
                    MockJobStepWhen::Always => JobStepWhen::Always,
                    MockJobStepWhen::OnFailure => JobStepWhen::OnFailure,
                    MockJobStepWhen::OnSuccess => JobStepWhen::OnSuccess,
                },
                allow_failure: s.allow_failure,
            })
            .collect(),
        dependencies: payload
            .dependencies
            .iter()
            .map(|d| JobDependency {
                id: d.id,
                name: d.name.clone(),
                token: d.token.clone(),
                artifacts_file: d.artifacts_file.as_ref().map(|f| JobArtifactFile {
                    filename: f.filename.clone(),
                    size: f.size,
                }),
            })
            .collect(),
        artifacts: payload
            .artifacts
            .iter()
            .map(|offer| JobArtifact {
                name: offer.artifact.name.clone(),
                untracked: offer.untracked.unwrap_or_default(),
                paths: offer.artifact.paths.clone(),
                when: match offer.artifact.when {
                    Some(MockJobArtifactWhen::Always) => ArtifactWhen::Always,
                    Some(MockJobArtifactWhen::OnFailure) => ArtifactWhen::OnFailure,
                    Some(MockJobArtifactWhen::OnSuccess) => ArtifactWhen::OnSuccess,
                    None => ArtifactWhen::default(),
                },
                artifact_type: offer.artifact.artifact_type.clone(),
                artifact_format: match offer.artifact.artifact_format.as_deref() {
                    Some("gzip") => ArtifactFormat::Gzip,
                    Some("raw") => ArtifactFormat::Raw,
                    _ => ArtifactFormat::Zip,
                },
                expire_in: None,
            })
            .collect(),
        token_mask_prefixes: job.token_prefixes().to_vec(),
    }
}

fn multipart(form: &UploadForm, data: &[u8]) -> Vec<u8> {
    let mut body = Vec::new();
    body.extend_from_slice(
        format!(
            "--XX\r\nContent-Disposition: form-data; name=\"file\"; filename=\"{}\"\r\n\r\n",
            form.file_name
        )
        .as_bytes(),
    );
    body.extend_from_slice(data);
    for field in &form.fields {
        body.extend_from_slice(
            format!(
                "\r\n--XX\r\nContent-Disposition: form-data; name=\"{}\"\r\n\r\n{}",
                field.name, field.value
            )
            .as_bytes(),
        );
    }
    body.extend_from_slice(b"\r\n--XX--\r\n");
    body
}

impl World {
    fn new() -> World {
        let server = GitlabRunnerMock::new();
        let runner = RunnerBuilder::new(
            "http://localhost:4040".to_string(),
            server.runner_token().to_string(),
            "/tmp".to_string(),
        )
        .build(None);
        World {
            jobs: MockJobs::new(),
            server,
            runner,
            list: RunList::new(),
            paths: Vec::new(),
            now: 0,
            next_tick: 0,
        }
    }

    fn route(&mut self, request: &ApiRequest) -> Route {
        let url = url::Url::parse(&request.url).unwrap();
        self.paths.push(url.path().to_string());
        route(request.method, url.path()).expect("nobody answers")
    }

    fn job(&self, job: usize) -> &MockJob {
        self.jobs.get(job)
    }

    fn state(&self, job: usize) -> MockJobState {
        self.job(job).state()
    }

    fn add_dummy_job(&mut self, name: &str) -> usize {
        self.server.add_dummy_job(&mut self.jobs, name.to_string())
    }

    /// A builder for a job with a single step.
    fn builder(&mut self, name: &str) -> MockJobBuilder {
        let mut builder = self.server.job_builder(name.to_string());
        builder.add_step(
            MockJobStepName::Script,
            vec!["dummy".to_string()],
            3600,
            MockJobStepWhen::OnSuccess,
            false,
        );
        builder
    }

    fn enqueue(&mut self, job: usize) {
        self.server.enqueue_job(&self.jobs, job);
    }

    /// One request for a job.
    fn request_job(&mut self) -> Option<ReceivedJob> {
        let request = self.runner.client.request_job().unwrap();
        assert_eq!(self.route(&request), Route::RequestJob);
        let body = self.runner.client.job_request();
        let refspecs = body.features.names().contains(&"refspecs".to_string());
        let reply = self.server.respond_request(&mut self.jobs, &body.token, refspecs);
        match Client::request_job_reply(reply.status, "refused".to_string()).unwrap() {
            JobOffer::NoJob => None,
            JobOffer::Job => {
                let response = to_response(&self.jobs.job_payload(reply.job.unwrap()));
                self.list.insert(response.id, ());
                let received = self.runner.receive_job(response, self.now);
                self.next_tick = self.now + received.run.report.interval * SECOND;
                Some(received)
            }
        }
    }

    fn send_trace(&mut self, run: &Run, buf: Vec<u8>) -> ReportEvent {
        let request = run.trace_request(buf.len() as u64).unwrap().unwrap();
        let id = match self.route(&request) {
            Route::Trace(id) => id,
            _ => panic!("wrong route"),
        };
        let token = header(&request, "JOB-TOKEN");
        let range = header(&request, "Content-Range");
        let reply =
            self.server.respond_trace(&mut self.jobs, id, token.as_deref(), range.as_deref(), buf);
        ReportEvent::TraceSent(Client::trace_reply(&to_http(reply)))
    }

    fn send_update(&mut self, run: &Run, state: JobState) -> ReportEvent {
        let (request, update): (ApiRequest, JobUpdate) = run.update_request(state).unwrap();
        let id = match self.route(&request) {
            Route::UpdateJob(id) => id,
            _ => panic!("wrong route"),
        };
        let state = match update.state {
            JobState::Pending => MockJobState::Pending,
            JobState::Running => MockJobState::Running,
            JobState::Success => MockJobState::Success,
            JobState::Failed => MockJobState::Failed,
        };
        let reply = self.server.respond_update(&mut self.jobs, id, &update.token, state);
        ReportEvent::Updated(Client::update_job_reply(&to_http(reply)))
    }

    /// Makes the reports that follow from a tick or from the end of a job.
    fn report(&mut self, run: &mut Run, log: &mut JobLog, event: ReportEvent) {
        let mut action = run.next(log, event);
        loop {
            let event = match action {
                ReportAction::SendTrace(buf) => self.send_trace(run, buf),
                ReportAction::SendState(state) => self.send_update(run, state),
                ReportAction::Wait(_) => {
                    assert_eq!(run.stage, ReportStage::Ticking);
                    return;
                }
                ReportAction::Finish => {
                    assert_eq!(run.stage, ReportStage::Done);
                    return;
                }
            };
            action = run.next(log, event);
        }
    }

    /// Lets time pass, and a tick happen where one is due.
    fn advance(&mut self, run: &mut Run, log: &mut JobLog, time: u64) {
        self.now += time;
        if self.now >= self.next_tick {
            self.report(run, log, ReportEvent::Tick(self.now));
            self.next_tick = self.now + run.report.interval * SECOND;
        }
    }

    fn upload(&mut self, run: &Run, uploader: Uploader) -> bool {
        let (name, format) = (uploader.file_name(), uploader.format_name());
        let info = uploader.info(&name, &format);
        let response = &run.response;
        let (request, form) = run
            .client
            .upload_artifact(response.id, &response.token, info)
            .unwrap();
        assert_eq!(request.method, Method::Post);
        let id = match self.route(&request) {
            Route::Upload(id) => id,
            _ => panic!("wrong route"),
        };
        let body = multipart(&form, &uploader.finish().unwrap());
        let form = read_form("multipart/form-data; boundary=XX", &body).unwrap();
        let token = header(&request, "JOB-TOKEN");
        let status = self.server.respond_upload(&mut self.jobs, id, token.as_deref(), form);
        Client::upload_artifact_reply(status).is_ok()
    }

    fn process_artifact(&mut self, run: &Run, number: usize, script: Result<(), ()>, files: &Files) -> bool {
        let artifact = &run.response.artifacts[number];
        let (mut steps, mut action) = ArtifactSteps::start(artifact, script);
        let mut uploader = None;
        let mut files = files.iter();
        let mut current: Option<(String, &[u8])> = None;
        loop {
            let event = match action {
                ArtifactAction::CreateUploader => {
                    uploader = Some(Uploader::new(artifact, &run.response.token_mask_prefixes));
                    ArtifactEvent::UploaderCreated(true)
                }
                ArtifactAction::ListFiles => ArtifactEvent::FilesListed(true),
                ArtifactAction::TakeFile => match files.next() {
                    Some((path, data)) => {
                        current = upload_name(artifact, path).map(|name| (name, *data));
                        ArtifactEvent::FileTaken(current.is_some())
                    }
                    None => ArtifactEvent::NoFileLeft,
                },
                ArtifactAction::BeginFile => {
                    let name = current.as_ref().unwrap().0.clone();
                    let begun = uploader.as_mut().unwrap().file(name);
                    ArtifactEvent::FileBegun(begun.is_ok())
                }
                ArtifactAction::OpenData => ArtifactEvent::DataOpened(true),
                ArtifactAction::CopyData => {
                    let data = current.as_ref().unwrap().1;
                    let copied = uploader.as_mut().unwrap().write(data);
                    ArtifactEvent::DataCopied(copied == data.len())
                }
                ArtifactAction::Upload => {
                    let uploader = uploader.take().unwrap();
                    ArtifactEvent::Uploaded(self.upload(run, uploader))
                }
                ArtifactAction::Finish(ok) => return ok,
            };
            action = steps.next(event);
        }
    }

    /// Runs a job to its end. `create` makes the handler, `step` runs a step of it.
    fn run_job<C, S>(&mut self, received: ReceivedJob, create: C, mut step: S, files: Files)
    where
        C: FnOnce(&Job, &mut JobLog, &mut World) -> bool,
        S: FnMut(&[String], Phase) -> bool,
    {
        let mut run = received.run;
        let mut log = run.new_log();
        let job = Job::new(run.client.duplicate(), run.response.clone(), received.build_dir);
        let mut steps = JobSteps::new();
        let mut create = Some(create);
        let mut event = JobEvent::BuildDirCreated(true);
        let success = loop {
            event = match steps.next(&run.response, event, run.report.cancelled) {
                JobAction::CreateHandler => {
                    let ok = (create.take().unwrap())(&job, &mut log, self);
                    JobEvent::HandlerCreated(ok)
                }
                JobAction::RunStep(phase) => {
                    let script = &run.response.step(phase).unwrap().script;
                    let ok = step(script, phase);
                    self.advance(&mut run, &mut log, 3 * SECOND);
                    JobEvent::StepDone(ok)
                }
                JobAction::ProcessArtifact(i) => {
                    let script = steps.script_result();
                    JobEvent::ArtifactDone(self.process_artifact(&run, i, script, &files))
                }
                JobAction::Cleanup => JobEvent::CleanedUp,
                JobAction::RemoveBuildDir => JobEvent::BuildDirRemoved,
                JobAction::Finish(ok) => break ok,
            };
        };
        self.report(&mut run, &mut log, ReportEvent::Ended(success));
        self.list.remove(job.id());
    }

    /// Runs a job whose steps all end in the same way.
    fn run_simple(&mut self, received: ReceivedJob, result: bool) {
        self.run_job(received, |_, _, _| true, |_, _| result, vec![]);
    }
}

#[test]
fn no_job() {
    let mut world = World::new();
    assert!(world.request_job().is_none());
}

#[test]
fn process_job() {
    let mut world = World::new();
    let id = world.add_dummy_job("process job");
    let mut run = world.request_job().expect("No job!").run;
    assert_eq!(run.response.id, world.job(id).id());
    let mut log = run.new_log();
    world.report(&mut run, &mut log, ReportEvent::Ended(true));
    assert!(world.request_job().is_none());
    assert_eq!(world.state(id), MockJobState::Success);
}

#[test]
fn job_success() {
    let mut world = World::new();
    let id = world.add_dummy_job("job success");
    let job = world.request_job().unwrap();
    world.run_simple(job, true);
    assert_eq!(MockJobState::Success, world.state(id));
}

#[test]
fn job_fail() {
    let mut world = World::new();
    let id = world.add_dummy_job("fail");
    let job = world.request_job().unwrap();
    world.run_simple(job, false);
    assert_eq!(MockJobState::Failed, world.state(id));
}

#[test]
fn handler_failure() {
    let mut world = World::new();
    let id = world.add_dummy_job("fail");
    let job = world.request_job().unwrap();
    world.run_job(job, |_, _, _| false, |_, _| unreachable!(), vec![]);
    assert_eq!(MockJobState::Failed, world.state(id));
}

fn message(text: &str) -> Field {
    Field {
        name: "message".to_string(),
        number: None,
        flag: None,
        text: text.to_string(),
    }
}

/// Lets an event that happens in the given spans reach the log that it belongs to.
fn emit(fields: Vec<Field>, spans: &Vec<SpanMarks>, job: u64, log: &mut JobLog) {
    let layer = GitlabLayer {};
    if let Some(id) = layer.on_event(&fields, spans) {
        assert_eq!(id, job);
        layer.write_event(&fields, log);
    }
}

fn output(text: &str) -> Vec<Field> {
    let mark = Field {
        name: "gitlab.output".to_string(),
        number: None,
        flag: Some(true),
        text: "true".to_string(),
    };
    vec![mark, message(text)]
}

#[test]
fn job_log() {
    let mut world = World::new();
    let id = world.add_dummy_job("log");
    let job = world.request_job().unwrap();
    world.run_job(
        job,
        |job, log, _| {
            let number = Field {
                name: "gitlab.job".to_string(),
                number: Some(job.id()),
                flag: None,
                text: job.id().to_string(),
            };
            let spans = vec![GitlabLayer {}.on_new_span(&vec![number])];
            emit(vec![message("TEST1234")], &spans, job.id(), log);
            emit(output("aa"), &spans, job.id(), log);
            job.trace(log, b"bb\n");
            emit(output("cc"), &spans, job.id(), log);
            true
        },
        |_, _| true,
        vec![],
    );
    assert_eq!(MockJobState::Success, world.state(id));
    assert_eq!(b"aa\nbb\ncc\n", world.job(id).log().as_slice());
}

#[test]
fn job_steps() {
    let mut world = World::new();
    let mut builder = world.server.job_builder("steps".to_string());
    builder.add_step(
        MockJobStepName::Script,
        vec!["command0".to_string(), "command1".to_string()],
        1234,
        MockJobStepWhen::OnSuccess,
        false,
    );
    let id = world.jobs.add(builder.build());
    world.enqueue(id);
    let job = world.request_job().unwrap();
    world.run_job(
        job,
        |_, _, _| true,
        |steps, _| {
            assert_eq!(&["command0", "command1"], steps);
            true
        },
        vec![],
    );
    assert_eq!(MockJobState::Success, world.state(id));
}

#[test]
fn job_variables() {
    let mut world = World::new();
    let id = world.add_dummy_job("variables");
    let job = world.request_job().unwrap();
    world.run_job(
        job,
        |job, _, _| {
            let id = job.variable("CI_JOB_ID").unwrap();
            assert_eq!(job.id(), id.value().parse::<u64>().unwrap());
            assert!(id.public());
            assert!(!id.masked());
            true
        },
        |_, _| true,
        vec![],
    );
    assert_eq!(MockJobState::Success, world.state(id));
}

#[test]
fn job_parallel() {
    let mut world = World::new();
    for _ in 0..5 {
        world.add_dummy_job("test job");
    }
    let mut jobs = Vec::new();
    while let Some(job) = world.request_job() {
        jobs.push(Some(job));
    }
    // Picked up 5 jobs
    assert_eq!(5, world.runner.running(&world.list));
    // Complete in random order
    for n in [4, 0, 2, 1, 3] {
        let job = jobs[n].take().unwrap();
        let id = world.server.get_job(&world.jobs, job.run.response.id).unwrap();
        assert_eq!(MockJobState::Running, world.state(id));
        let running = world.runner.running(&world.list);
        world.run_simple(job, true);
        assert!(world.runner.has_space(&world.list, running));
        assert_eq!(MockJobState::Success, world.state(id));
    }
    assert_eq!(world.runner.running(&world.list), 0);
    assert!(world.runner.drained(&world.list));
}

#[test]
fn runner_limit() {
    const JOB_LIMIT: usize = 3;
    const N_JOBS: usize = 32;
    let mut world = World::new();
    let mut ids = Vec::new();
    for _ in 0..N_JOBS {
        ids.push(world.add_dummy_job("test job"));
    }
    let mut running = Vec::new();
    let mut action = LoopAction::CheckSpace;
    let mut pauses = 0;
    while pauses == 0 {
        action = match action {
            LoopAction::CheckSpace => world.runner.next_by_space(&world.list, JOB_LIMIT),
            LoopAction::WaitForChange => {
                let job = running.remove(0);
                world.run_simple(job, true);
                LoopAction::CheckSpace
            }
            LoopAction::Request => match world.request_job() {
                Some(job) => {
                    running.push(job);
                    Runner::next_by_outcome(RequestOutcome::Job)
                }
                None => Runner::next_by_outcome(RequestOutcome::NoJob),
            },
            LoopAction::Pause(seconds) => {
                assert_eq!(seconds, 5);
                pauses += 1;
                LoopAction::CheckSpace
            }
        };
        assert!(running.len() <= JOB_LIMIT, "running {} > {}", running.len(), N_JOBS);
    }
    for job in running {
        world.run_simple(job, true);
    }
    for id in ids {
        assert_eq!(world.state(id), MockJobState::Success);
    }
    // One request for each job, and one to see there isn't another one
    assert_eq!(n_requests(&world.paths), N_JOBS + 1);
}

#[test]
fn cancelled_job() {
    let mut world = World::new();
    let id = world.add_dummy_job("cancelled");
    let job = world.request_job().unwrap();
    let mut steps = 0;
    world.run_job(
        job,
        |job, log, world| {
            job.trace(log, b"started\n");
            world.jobs.list[id].cancel();
            true
        },
        |_, _| {
            steps += 1;
            true
        },
        vec![],
    );
    assert_eq!(steps, 1);
    // No state was reported, and no log was taken.
    assert_eq!(world.state(id), MockJobState::Cancelled);
    assert_eq!(world.job(id).state_updates(), 2);
    assert_eq!(world.job(id).log(), b"");
}

fn test_files() -> Files {
    vec![("test", b"testdata".as_slice()), ("test2", b"testdata2".as_slice())]
}

fn read(artifact: &mut Artifact, name: &str) -> Vec<u8> {
    let mut data = Vec::new();
    let mut file = artifact.file(name).expect("Testfile not available");
    assert_eq!(file.name(), name);
    file.read_to_end(&mut data).expect("Failed to read content");
    data
}

fn check_download(job: &Job, world: &mut World) {
    let mut cache = ArtifactCache::new();
    let dependencies = job.dependencies();
    assert_eq!(dependencies.len(), 1);
    assert_eq!(dependencies[0].artifact_filename(), Some("artifacts.zip"));
    let request = dependencies[0].download_request().unwrap();
    let id = match world.route(&request) {
        Route::Download(id) => id,
        _ => panic!("wrong route"),
    };
    match dependencies[0].download(&cache) {
        DownloadPlan::ToMemory(_) => {}
        _ => panic!("expected a small artifact"),
    }
    let token = header(&request, "JOB-TOKEN");
    let data = world.server.respond_download(&world.jobs, id, token.as_deref()).unwrap();
    cache.insert_data(id, data.to_vec());
    assert!(matches!(dependencies[0].download(&cache), DownloadPlan::Cached(_)));

    let mut artifact = Artifact::new(data.to_vec()).unwrap();
    let mut names = artifact.file_names();
    names.sort_unstable();
    assert_eq!(2, names.len());
    assert_eq!(&["test", "test2"], names.as_slice());
    assert_eq!("testdata".as_bytes(), read(&mut artifact, "test"));
    assert_eq!("testdata2".as_bytes(), read(&mut artifact, "test2"));
    /* Try reading first data file a second time */
    assert_eq!("testdata".as_bytes(), read(&mut artifact, "test"));
}

#[test]
fn upload_download() {
    let mut world = World::new();
    let mut upload = world.builder("upload artifact");
    upload.add_artifact_paths(vec!["*".to_string()]);
    let upload = world.jobs.add(upload.build());

    let mut download = world.builder("download artifact");
    download.dependency(upload);
    let download = world.jobs.add(download.build());
    // The order of the queue does not matter: the upload job comes first
    world.enqueue(download);
    world.enqueue(upload);

    let job = world.request_job().unwrap();
    assert_eq!(job.run.response.id, world.job(upload).id());
    assert!(world.request_job().is_none());
    world.run_job(job, |_, _, _| true, |_, _| true, test_files());
    assert_eq!(MockJobState::Success, world.state(upload));
    run_download(&mut world, download);
}

/// Runs a job that reads what was uploaded for its dependency.
fn run_download(world: &mut World, download: usize) {
    let job = world.request_job().unwrap();
    assert_eq!(job.run.response.id, world.job(download).id());
    world.run_job(
        job,
        |job, _, world| {
            check_download(job, world);
            true
        },
        |_, _| true,
        vec![],
    );
    assert_eq!(MockJobState::Success, world.state(download));
}

#[test]
fn multiple_upload() {
    let mut world = World::new();
    let mut upload = world.builder("multiple uploads");
    upload.add_artifact(
        None,
        false,
        vec!["*".to_string()],
        Some(MockJobArtifactWhen::OnSuccess),
        "archive".to_string(),
        Some("zip".to_string()),
        None,
    );
    upload.add_artifact(
        Some("junit".to_string()),
        false,
        vec!["test2".to_string()],
        Some(MockJobArtifactWhen::Always),
        "junit".to_string(),
        Some("gzip".to_string()),
        None,
    );
    let id = world.jobs.add(upload.build());
    world.enqueue(id);

    let mut download = world.builder("download artifact");
    download.dependency(id);
    let download = world.jobs.add(download.build());
    world.enqueue(download);

    let job = world.request_job().unwrap();
    world.run_job(job, |_, _, _| true, |_, _| true, test_files());
    assert_eq!(MockJobState::Success, world.state(id));

    let mut saw_zip = false;
    let mut saw_gzip = false;
    for artifact in world.job(id).uploaded_artifacts() {
        match artifact.filename.as_deref() {
            Some("default.zip") => {
                assert_eq!(artifact.artifact_format.as_deref(), Some("zip"));
                assert_eq!(artifact.artifact_type.as_deref(), Some("archive"));
                let mut z = Artifact::new(artifact.data.to_vec()).expect("failed to open zip archive");
                saw_zip = true;
                assert_eq!(z.len(), 2);
                for ix in 0..z.len() {
                    let mut f = z.by_index(ix).expect("failed to get zip file");
                    let mut data = Vec::new();
                    f.read_to_end(&mut data).expect("failed to read zip file");
                    match f.name() {
                        "test" => assert_eq!(b"testdata", data.as_slice()),
                        "test2" => assert_eq!(b"testdata2", data.as_slice()),
                        _ => unreachable!("unknown file in archive"),
                    }
                }
            }
            Some("junit.gz") => {
                assert_eq!(artifact.artifact_format.as_deref(), Some("gzip"));
                assert_eq!(artifact.artifact_type.as_deref(), Some("junit"));
                saw_gzip = true;
                let mut gz = GzDecoder::new(Cursor::new(artifact.data.as_slice()));
                let mut data = Vec::new();
                gz.read_to_end(&mut data).expect("failed to read gzip file");
                assert_eq!(b"testdata2", data.as_slice());
            }
            _ => unreachable!("unknown artifact type in archive"),
        }
    }
    assert!(saw_zip, "No zip file was uploaded");
    assert!(saw_gzip, "No gzip file was uploaded");

    run_download(&mut world, download);
}

/// Logs in two pieces, which arrive together when the interval is over and not before.
fn log_batch(world: &mut World, run: &mut Run, log: &mut JobLog, job: usize, interval: u64) {
    let patches = world.job(job).log_patches();
    log.trace(b"1");
    world.advance(run, log, interval / 4);
    assert_eq!(world.job(job).log_patches(), patches, "Seen an unexpected log patch");
    log.trace(b"2");
    world.advance(run, log, interval / 4);
    assert_eq!(world.job(job).log_patches(), patches, "Seen an unexpected log patch");

    // Jump time by interval; which should cause a single tick on the trace update interval
    world.advance(run, log, interval / 2);
    assert_eq!(world.job(job).log_patches(), patches + 1);
    assert_eq!(world.job(job).log_last(), Some(vec![b'1', b'2']));
}

#[test]
fn update_interval() {
    let mut world = World::new();
    let id = world.add_dummy_job("logging");
    let mut run = world.request_job().unwrap().run;
    let mut log = run.new_log();

    log.trace(b"ping");
    world.advance(&mut run, &mut log, SECOND);
    assert_eq!(world.job(id).log_patches(), 0);
    world.advance(&mut run, &mut log, 100 * SECOND);
    assert_eq!(world.job(id).log_patches(), 1);
    assert_eq!(world.job(id).log_last(), Some(b"ping".to_vec()));

    // Default interval is 3, so do a bit more seconds
    let interval = 4 * SECOND;
    log_batch(&mut world, &mut run, &mut log, id, interval);
    log_batch(&mut world, &mut run, &mut log, id, interval);
    log_batch(&mut world, &mut run, &mut log, id, interval);
    assert_eq!(world.job(id).log_patches(), 4);

    // First state update was pending -> running
    assert_eq!(world.job(id).state_updates(), 1);

    // After 30 seconds of not sending logs a job update should be sent
    world.advance(&mut run, &mut log, 40 * SECOND);
    assert_eq!(world.job(id).state_updates(), 2);
    assert_eq!(world.job(id).log_patches(), 4);

    // Check one log attempt to make sure the intervals aren't trying to catch up
    log_batch(&mut world, &mut run, &mut log, id, interval);

    // Update interval and then send another trace; the new trace will get the update interval
    world.server.set_update_interval(30);
    assert_eq!(run.report.interval, 3);
    log_batch(&mut world, &mut run, &mut log, id, interval);
    assert_eq!(run.report.interval, 30);

    let interval = 30 * SECOND;
    log_batch(&mut world, &mut run, &mut log, id, interval);
    assert_eq!(world.job(id).log_patches(), 7);
    assert_eq!(world.job(id).state_updates(), 2);

    /* Trigger another keepalive by jumping more then the period and more then the default
     * keepalive of 30 seconds  */
    world.advance(&mut run, &mut log, 40 * SECOND);
    assert_eq!(world.job(id).state_updates(), 3);
    assert_eq!(world.job(id).log_patches(), 7);

    world.report(&mut run, &mut log, ReportEvent::Ended(true));
    assert_eq!(MockJobState::Success, world.state(id));
    assert_eq!(run.report.log_offset as usize, world.job(id).log().len());
}

#[test]
fn masked_log_on_the_server() {
    let mut world = World::new();
    let mut builder = world.builder("masked");
    builder.add_token_prefix("glpat-".to_string());
    let id = world.jobs.add(builder.build());
    world.enqueue(id);
    let job = world.request_job().unwrap();
    world.run_job(
        job,
        |job, log, _| {
            job.trace(log, b"use glp");
            job.trace(log, b"at-abc now\n");
            true
        },
        |_, _| true,
        vec![],
    );
    assert_eq!(world.job(id).log(), b"use glpat-[MASKED] now\n");
}

use gitlab_runner::client::Method;
use gitlab_runner::mock::api::{
    collect_form, path_id, read_form, route, ArtifactForm, FormPart, MockReply, RequestReply, Route,
};
use gitlab_runner::mock::job::{
    LogError, MockJob, MockJobBuilder, MockJobState, MockJobStepName, MockJobStepWhen,
};
use gitlab_runner::mock::server::{n_requests, GitlabRunnerMock, MockJobs};

fn form(data: &[u8], artifact_type: Option<&str>) -> ArtifactForm {
    ArtifactForm {
        filename: Some("file".to_string()),
        data: data.to_vec(),
        artifact_type: artifact_type.map(|t| t.to_string()),
        artifact_format: None,
    }
}

fn running(server: &mut GitlabRunnerMock, all: &mut MockJobs) -> u64 {
    let job = server.add_dummy_job(all, "job".to_string());
    assert_eq!(server.respond_request(all, "fakerunnertoken", true).status, 201);
    all.get(job).id()
}

fn builder(server: &mut GitlabRunnerMock, name: &str) -> MockJobBuilder {
    let mut builder = server.job_builder(name.to_string());
    builder.add_step(
        MockJobStepName::Script,
        Vec::new(),
        1,
        MockJobStepWhen::Always,
        false,
    );
    builder
}

fn plain(status: u16) -> MockReply {
    MockReply { status, job_status: None, update_interval: None, error: None }
}

#[test]
fn states_have_names() {
    assert_eq!(MockJobState::Pending.to_string(), "pending");
    assert_eq!(MockJobState::Running.to_string(), "running");
    assert_eq!(MockJobState::Success.to_string(), "success");
    assert_eq!(MockJobState::Failed.to_string(), "failed");
    assert_eq!(MockJobState::Cancelled.to_string(), "canceled");
    assert!(MockJobState::Success.finished());
    assert!(MockJobState::Failed.finished());
    assert!(!MockJobState::Cancelled.finished());
    assert!(!MockJobState::Running.finished());
}

#[test]
fn new_jobs_wait() {
    let job = MockJob::new("name".to_string(), 7);
    assert_eq!(job.name(), "name");
    assert_eq!(job.id(), 7);
    assert_eq!(job.token(), "job-token-7");
    assert_eq!(job.state(), MockJobState::Pending);
    assert_eq!(job.state_updates(), 0);
    assert!(!job.finished());
    assert_eq!(job.steps().len(), 1);
    assert_eq!(job.steps()[0].script, vec!["dummy"]);
    assert_eq!(job.log(), b"");
    assert_eq!(job.log_last(), None);
    assert!(job.artifact().is_empty());
    assert!(job.dependencies().is_empty());
    assert!(job.artifacts().is_empty());
    assert_eq!(job.variables()[0].key, "CI_JOB_ID");
    assert_eq!(job.variables()[0].value, "7");
}

#[test]
fn completed_jobs_have_an_artifact() {
    let job = MockJob::new_completed("done".to_string(), 8, b"zip".to_vec());
    assert_eq!(job.state(), MockJobState::Success);
    assert_eq!(job.state_updates(), 2);
    assert_eq!(job.artifact().as_slice(), b"zip");
    assert_eq!(job.log_patches(), 0);
}

#[test]
fn variables_are_replaced() {
    let mut builder = MockJobBuilder::new("job".to_string(), 9);
    builder.add_variable("A".to_string(), "1".to_string(), true, false);
    builder.add_variable("A".to_string(), "2".to_string(), false, true);
    builder.add_token_prefix("tok-".to_string());
    builder.add_step(
        MockJobStepName::AfterScript,
        Vec::new(),
        1,
        MockJobStepWhen::Always,
        true,
    );
    let job = builder.build();
    assert_eq!(job.variables().len(), 2);
    let a = job.variables().iter().find(|v| v.key == "A").unwrap();
    assert_eq!(a.value, "2");
    assert!(a.masked);
    assert_eq!(job.token_prefixes().to_vec(), vec!["tok-"]);
}

#[test]
fn logs_grow_in_order() {
    let mut job = MockJob::new("log".to_string(), 1);
    assert_eq!(job.append_log(b"abc".to_vec(), 0, 2), Ok(()));
    assert_eq!(job.append_log(b"def".to_vec(), 2, 4), Err(LogError::IncorrectStart));
    assert_eq!(job.append_log(b"def".to_vec(), 3, 6), Err(LogError::IncorrectEnd));
    assert_eq!(job.append_log(b"def".to_vec(), 3, 5), Ok(()));
    assert_eq!(job.log(), b"abcdef");
    assert_eq!(job.log_last(), Some(b"def".to_vec()));
    assert_eq!(job.log_patches(), 2);
    assert_eq!(LogError::IncorrectStart.message(), "Incorrect range start");
    assert_eq!(LogError::IncorrectEnd.message(), "Incorrect range end");
    assert_eq!(LogError::IncorrectStart.name(), "IncorrectStart");
    assert_eq!(LogError::IncorrectEnd.name(), "IncorrectEnd");
}

#[test]
fn requests_are_checked() {
    let mut all = MockJobs::new();
    let mut server = GitlabRunnerMock::new();
    let job = server.add_dummy_job(&mut all, "job".to_string());
    assert_eq!(job, 0);
    assert_eq!(all.get(job).id(), 266);
    let refused = RequestReply { status: 403, job: None };
    let nothing = RequestReply { status: 204, job: None };
    assert_eq!(server.respond_request(&mut all, "wrong", true), refused);
    assert_eq!(server.respond_request(&mut all, "fakerunnertoken", false), nothing);
    assert_eq!(
        server.respond_request(&mut all, "fakerunnertoken", true),
        RequestReply { status: 201, job: Some(0) }
    );
    assert_eq!(all.get(job).state(), MockJobState::Running);
    // A job is handed out once.
    assert_eq!(server.respond_request(&mut all, "fakerunnertoken", true), nothing);
}

#[test]
fn dependencies_are_offered() {
    let mut all = MockJobs::new();
    let mut server = GitlabRunnerMock::new();
    let first = server.add_completed_job(&mut all, "first".to_string(), b"data".to_vec());
    let empty = server.add_completed_job(&mut all, "empty".to_string(), Vec::new());
    let mut second = builder(&mut server, "second");
    second.dependency(first);
    second.dependency(empty);
    second.add_artifact(None, true, Vec::new(), None, "archive".to_string(), None, None);
    second.add_artifact_paths(vec!["*".to_string()]);
    let second = all.add(second.build());
    server.enqueue_job(&all, second);
    assert_eq!(all.get(second).dependencies(), &[first, empty]);
    let reply = server.respond_request(&mut all, "fakerunnertoken", true);
    assert_eq!(reply.job, Some(second));
    let payload = all.job_payload(second);
    assert_eq!(payload.job.name(), "second");
    assert_eq!(payload.dependencies.len(), 2);
    assert_eq!(payload.dependencies[0].id, 266);
    assert_eq!(payload.dependencies[0].name, "first");
    assert_eq!(payload.dependencies[0].token, "job-token-266");
    let file = payload.dependencies[0].artifacts_file.as_ref().unwrap();
    assert_eq!((file.filename.as_str(), file.size), ("artifacts.zip", 4));
    assert!(payload.dependencies[1].artifacts_file.is_none());
    assert_eq!(payload.artifacts[0].untracked, Some(true));
    assert_eq!(payload.artifacts[1].untracked, None);
    assert_eq!(payload.git_info.depth, 50);
    assert_eq!(server.get_job_artifact(&all, 266), Some(b"data".to_vec()));
    assert_eq!(server.get_job_artifact(&all, 267), Some(Vec::new()));
    assert_eq!(server.get_job_artifact(&all, 1), None);
}

#[test]
fn dependencies_may_be_elsewhere() {
    let mut all = MockJobs::new();
    let mut server = GitlabRunnerMock::new();
    let mut other = GitlabRunnerMock::new();
    // One that another server has, and one that none has
    let elsewhere = other.add_dummy_job(&mut all, "elsewhere".to_string());
    let nowhere = all.add(builder(&mut other, "nowhere").build());
    let mut last = builder(&mut server, "last");
    last.dependency(elsewhere);
    last.dependency(nowhere);
    let last = all.add(last.build());
    server.enqueue_job(&all, last);
    // Both servers know a job with this id, and each its own.
    assert_eq!(all.get(last).id(), all.get(elsewhere).id());
    assert_eq!(server.get_job(&all, 266), Some(last));
    assert_eq!(other.get_job(&all, 266), Some(elsewhere));

    assert_eq!(server.grab_pending_job(&all), None);
    assert_eq!(other.respond_request(&mut all, "fakerunnertoken", true).job, Some(elsewhere));
    other.respond_update(&mut all, 266, "job-token-266", MockJobState::Success);
    assert_eq!(server.grab_pending_job(&all), None);
    all.list[nowhere].update_state(MockJobState::Failed);
    assert_eq!(server.grab_pending_job(&all), Some(last));
    let payload = all.job_payload(last);
    assert_eq!(payload.dependencies[0].name, "elsewhere");
    assert_eq!(payload.dependencies[1].name, "nowhere");
}

#[test]
fn added_jobs() {
    let mut all = MockJobs::new();
    let mut server = GitlabRunnerMock::new();
    let dummy = server.add_dummy_job(&mut all, "dummy".to_string());
    let done = server.add_completed_job(&mut all, "done".to_string(), b"zip".to_vec());
    let job = all.get(dummy);
    assert_eq!(job.steps().len(), 1);
    assert_eq!(job.steps()[0].name, MockJobStepName::Script);
    assert_eq!(job.steps()[0].script, vec!["dummy"]);
    assert_eq!(job.steps()[0].timeout, 3600);
    assert_eq!(job.steps()[0].when, MockJobStepWhen::OnSuccess);
    assert!(!job.steps()[0].allow_failure);
    assert_eq!(job.variables().len(), 1);
    assert!(job.artifacts().is_empty() && job.token_prefixes().is_empty());
    let job = all.get(done);
    assert!(job.variables().is_empty() && job.steps().is_empty() && job.dependencies().is_empty());
    assert!(job.artifacts().is_empty() && job.token_prefixes().is_empty());
    assert_eq!(job.log(), b"");
    assert_eq!(job.uploaded_artifacts().len(), 1);
    assert_eq!(job.uploaded_artifacts()[0].data.as_slice(), b"zip");
}

#[test]
fn state_updates_are_counted() {
    for mut job in [
        MockJob::new("new".to_string(), 1),
        MockJob::new_completed("done".to_string(), 2, Vec::new()),
    ] {
        let base = job.state_updates();
        job.update_state(MockJobState::Running);
        job.append_log(b"ab".to_vec(), 0, 1).unwrap();
        job.update_state(MockJobState::Running);
        job.append_log(b"ab".to_vec(), 0, 1).unwrap_err();
        job.add_artifact(None, Vec::new(), None, None);
        job.cancel();
        assert_eq!(job.state_updates(), base + 3);
    }
}

#[test]
fn logs_hold_what_was_accepted() {
    let mut job = MockJob::new("log".to_string(), 1);
    assert_eq!((job.log_patches(), job.log_last()), (0, None));
    job.append_log(b"refused".to_vec(), 1, 7).unwrap_err();
    assert_eq!((job.log_patches(), job.log_last()), (0, None));
    job.append_log(b"ab".to_vec(), 0, 1).unwrap();
    job.update_state(MockJobState::Running);
    job.append_log(b"refused".to_vec(), 0, 6).unwrap_err();
    job.add_artifact(None, b"zip".to_vec(), None, None);
    job.append_log(b"cd".to_vec(), 2, 3).unwrap();
    assert_eq!(job.log(), b"abcd");
    assert_eq!(job.log_patches(), 2);
}

#[test]
fn updates_are_checked() {
    let mut all = MockJobs::new();
    let mut server = GitlabRunnerMock::new();
    let id = running(&mut server, &mut all);
    assert_eq!(server.respond_update(&mut all, 1, "job-token-1", MockJobState::Success), plain(404));
    assert_eq!(server.respond_update(&mut all, id, "wrong", MockJobState::Success), plain(403));
    let reply = server.respond_update(&mut all, id, "job-token-266", MockJobState::Running);
    assert_eq!((reply.status, reply.job_status), (200, Some(MockJobState::Running)));
    let reply = server.respond_update(&mut all, id, "job-token-266", MockJobState::Failed);
    assert_eq!((reply.status, reply.job_status), (200, Some(MockJobState::Failed)));
    let reply = server.respond_update(&mut all, id, "job-token-266", MockJobState::Success);
    assert_eq!((reply.status, reply.job_status), (403, Some(MockJobState::Failed)));
    assert_eq!(all.get(0).state_updates(), 3);
}

#[test]
fn traces_are_checked() {
    let mut all = MockJobs::new();
    let mut server = GitlabRunnerMock::new();
    let id = running(&mut server, &mut all);
    let token = Some("job-token-266");
    let data = || b"abc".to_vec();
    assert_eq!(server.respond_trace(&mut all, id, None, Some("0-2"), data()), plain(403));
    assert_eq!(server.respond_trace(&mut all, id, token, None, data()), plain(400));
    assert_eq!(server.respond_trace(&mut all, 1, token, Some("0-2"), data()), plain(404));
    assert_eq!(server.respond_trace(&mut all, id, Some("wrong"), Some("0-2"), data()), plain(403));
    let reply = server.respond_trace(&mut all, id, token, Some("0-3"), data());
    assert_eq!((reply.status, reply.error), (416, Some(LogError::IncorrectEnd)));
    let reply = server.respond_trace(&mut all, id, token, Some("1-3"), data());
    assert_eq!((reply.status, reply.error), (416, Some(LogError::IncorrectStart)));
    let reply = server.respond_trace(&mut all, id, token, Some("0-2"), data());
    assert_eq!(
        reply,
        MockReply {
            status: 202,
            job_status: Some(MockJobState::Running),
            update_interval: Some(3),
            error: None,
        }
    );
    let i = server.get_job(&all, id).unwrap();
    all.list[i].cancel();
    let reply = server.respond_trace(&mut all, id, token, Some("3-5"), data());
    assert_eq!((reply.status, reply.job_status), (403, Some(MockJobState::Cancelled)));
    assert_eq!(all.get(0).log(), b"abc");
}

#[test]
fn artifacts_are_checked() {
    let mut all = MockJobs::new();
    let mut server = GitlabRunnerMock::new();
    let id = running(&mut server, &mut all);
    let token = Some("job-token-266");
    assert_eq!(server.respond_download(&all, id, token), Err(404));
    assert_eq!(server.respond_upload(&mut all, id, None, form(b"x", None)), 403);
    assert_eq!(server.respond_upload(&mut all, 1, token, form(b"x", None)), 404);
    assert_eq!(server.respond_upload(&mut all, id, Some("wrong"), form(b"x", None)), 403);
    assert_eq!(server.respond_upload(&mut all, id, token, form(b"report", Some("junit"))), 201);
    assert_eq!(server.respond_download(&all, id, token), Err(404));
    assert_eq!(server.respond_upload(&mut all, id, token, form(b"first", Some("archive"))), 201);
    assert_eq!(server.respond_upload(&mut all, id, token, form(b"second", Some("archive"))), 201);
    assert_eq!(server.respond_download(&all, id, token).unwrap().as_slice(), b"first");
    assert_eq!(server.respond_download(&all, id, Some("wrong")), Err(403));
    assert_eq!(server.respond_download(&all, id, None), Err(403));
    assert_eq!(server.respond_download(&all, 1, token), Err(404));
    assert_eq!(all.get(0).uploaded_artifacts().len(), 3);
}

fn part(name: Option<&str>, data: &str) -> FormPart {
    FormPart {
        name: name.map(|n| n.to_string()),
        file_name: Some(format!("{}.bin", data)),
        data: data.as_bytes().to_vec(),
        text: data.to_string(),
    }
}

#[test]
fn forms_are_collected() {
    let form = collect_form(vec![
        part(Some("file"), "one"),
        part(Some("artifact_type"), "archive"),
        part(Some("artifact_format"), "zip"),
        part(Some("file"), "two"),
    ])
    .unwrap();
    assert_eq!(form.filename, Some("two.bin".to_string()));
    assert_eq!(form.data, b"two");
    assert_eq!(form.artifact_type, Some("archive".to_string()));
    assert_eq!(form.artifact_format, Some("zip".to_string()));
    assert!(collect_form(vec![part(Some("expire_in"), "now")]).is_none());
    assert!(collect_form(vec![part(None, "x")]).is_none());
    assert_eq!(collect_form(vec![]).unwrap().data, b"");
}

#[test]
fn forms_are_read() {
    let body = b"--B\r\nContent-Disposition: form-data; name=\"file\"; filename=\"a.zip\"\r\n\r\n\x00\xff\r\n--B\r\nContent-Disposition: form-data; name=\"artifact_type\"\r\n\r\narchive\r\n--B--\r\n";
    let form = read_form("multipart/form-data; boundary=B", body).unwrap();
    assert_eq!(form.filename, Some("a.zip".to_string()));
    assert_eq!(form.data, vec![0x00, 0xff]);
    assert_eq!(form.artifact_type, Some("archive".to_string()));
    assert_eq!(form.artifact_format, None);
    assert!(read_form("text/plain", body).is_none());
    assert!(read_form("multipart/form-data; boundary=B", b"--B\r\nbroken").is_none());
}

#[test]
fn requests_are_routed() {
    assert_eq!(route(Method::Post, "/api/v4/jobs/request"), Some(Route::RequestJob));
    assert_eq!(route(Method::Put, "/api/v4/jobs/12"), Some(Route::UpdateJob(12)));
    assert_eq!(route(Method::Patch, "/api/v4/jobs/12/trace"), Some(Route::Trace(12)));
    assert_eq!(route(Method::Post, "/api/v4/jobs/12/artifacts"), Some(Route::Upload(12)));
    assert_eq!(route(Method::Get, "/api/v4/jobs/12/artifacts"), Some(Route::Download(12)));
    assert_eq!(route(Method::Get, "/api/v4/jobs/12"), None);
    assert_eq!(route(Method::Put, "/api/v4/jobs/12/trace"), None);
    assert_eq!(route(Method::Put, "/api/v4/jobs/x"), None);
    assert_eq!(route(Method::Get, "/api/v4/jobs/request"), None);
    assert_eq!(path_id("/api/v4/jobs/12/trace", 1), Some(12));
    assert_eq!(path_id("/api/v4/jobs/12/trace", 0), None);
    assert_eq!(path_id("", 0), None);
}

#[test]
fn requests_for_jobs_are_counted() {
    let paths: Vec<String> = ["/api/v4/jobs/request", "/api/v4/jobs/1", "/api/v4/jobs/request"]
        .iter()
        .map(|p| p.to_string())
        .collect();
    assert_eq!(n_requests(&paths), 2);
    let mut server = GitlabRunnerMock::new();
    assert_eq!(server.update_interval(), 3);
    server.set_update_interval(30);
    assert_eq!(server.update_interval(), 30);
}

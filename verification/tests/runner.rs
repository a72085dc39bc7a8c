use gitlab_runner::client::{GitInfo, JobResponse};
use gitlab_runner::runlist::RunList;
use gitlab_runner::runner::{
    generate_system_id, machine_system_id, LoopAction, RequestOutcome, Runner, RunnerBuilder,
};

fn builder() -> RunnerBuilder {
    RunnerBuilder::new(
        "https://gitlab.com/".to_string(),
        "RunnerToken".to_string(),
        "/tmp".to_string(),
    )
}

fn response(id: u64) -> JobResponse {
    JobResponse {
        id,
        token: format!("job-token-{}", id),
        allow_git_fetch: true,
        git_info: GitInfo {
            repo_url: String::new(),
            sha: String::new(),
            refspecs: Vec::new(),
            depth: 0,
        },
        variables: Vec::new(),
        steps: Vec::new(),
        dependencies: Vec::new(),
        artifacts: Vec::new(),
        token_mask_prefixes: Vec::new(),
    }
}

#[test]
fn system_ids_from_the_machine() {
    let content = b"0123456789abcdef0123456789abcdef\n";
    let id = generate_system_id(Some(content));
    assert_eq!(id, "s_ee3af03959fe");
    assert_eq!(id.len(), 14);
    // Only the first characters of the file count.
    assert_eq!(generate_system_id(Some(&content[0..32])), id);
    assert_ne!(generate_system_id(Some(b"f123456789abcdef0123456789abcdef")), id);
    assert_eq!(machine_system_id(&[0, 1, 2, 0xaa, 0xbb, 0xcc, 0xdd]), "s_000102aabbcc");
}

#[test]
fn system_ids_by_chance() {
    for content in [None, Some(b"short".as_slice())] {
        let id = generate_system_id(content);
        assert!(id.starts_with("r_"));
        assert_eq!(id.len(), 14);
        assert!(id[2..].chars().all(|c| c.is_ascii_alphanumeric()));
        assert_ne!(generate_system_id(content), id);
    }
}

#[test]
fn built_runners() {
    let runner = builder()
        .system_id("x".repeat(70))
        .version("v".repeat(3000))
        .revision("r".repeat(300))
        .platform("linux".to_string())
        .architecture("a".repeat(255))
        .build(None);
    assert_eq!(runner.client.url, "https://gitlab.com/");
    assert_eq!(runner.client.token, "RunnerToken");
    assert_eq!(runner.client.system_id, "x".repeat(64));
    assert_eq!(runner.client.metadata.version, Some("v".repeat(2048)));
    assert_eq!(runner.client.metadata.revision, Some("r".repeat(255)));
    assert_eq!(runner.client.metadata.platform, Some("linux".to_string()));
    assert_eq!(runner.client.metadata.architecture, Some("a".repeat(255)));
    assert_eq!(runner.build_dir, "/tmp");
    assert!(builder().build(None).client.system_id.starts_with("r_"));
    let request = runner.client.job_request();
    assert_eq!(request.metadata.platform, Some("linux".to_string()));
}

#[test]
fn system_ids_are_cut_by_characters() {
    let runner = builder().system_id("é".repeat(65)).build(None);
    assert_eq!(runner.client.system_id, "é".repeat(64));
}

#[test]
fn received_jobs() {
    let runner = builder().build(None);
    let job = runner.receive_job(response(266), 1000);
    assert_eq!(job.build_dir, "/tmp/266");
    assert_eq!(job.run.response.id, 266);
    assert_eq!(job.run.report.interval, 3);
    assert_eq!(job.run.report.log_offset, 0);
    assert_eq!(job.run.report.last_alive, 1000);
}

#[test]
fn requests_need_room() {
    let runner = builder().build(None);
    let mut list = RunList::new();
    assert_eq!(runner.next_by_space(&list, 2), LoopAction::Request);
    assert_eq!(runner.next_by_space(&list, 0), LoopAction::WaitForChange);
    list.insert(1, ());
    assert_eq!(runner.next_by_space(&list, 2), LoopAction::Request);
    list.insert(2, ());
    assert_eq!(runner.running(&list), 2);
    assert_eq!(runner.next_by_space(&list, 2), LoopAction::WaitForChange);
    assert!(!runner.has_space(&list, 2));
    assert!(!runner.drained(&list));
    list.remove(1);
    list.remove(2);
    assert!(runner.drained(&list));
}

#[test]
fn requests_are_repeated() {
    assert_eq!(Runner::next_by_outcome(RequestOutcome::Job), LoopAction::CheckSpace);
    assert_eq!(Runner::next_by_outcome(RequestOutcome::NoJob), LoopAction::Pause(5));
    assert_eq!(Runner::next_by_outcome(RequestOutcome::Failed), LoopAction::Pause(5));
}

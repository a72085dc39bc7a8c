use gitlab_runner::client::{
    Client, ClientMetadata, Error, GitInfo, JobArtifactFile, JobDependency, JobResponse,
    JobVariable, Method,
};
use gitlab_runner::job::{
    is_retriable_error, retry_message, ArtifactCache, CacheData, DownloadPlan, DownloadRetry, Job,
    JobLog,
};

fn job(sizes: &[Option<usize>]) -> Job {
    let dependencies = sizes
        .iter()
        .enumerate()
        .map(|(i, size)| JobDependency {
            id: 10 + i as u64,
            name: format!("build{}", i),
            token: format!("token{}", i),
            artifacts_file: size.map(|size| JobArtifactFile {
                filename: "artifacts.zip".to_string(),
                size,
            }),
        })
        .collect();
    let response = JobResponse {
        id: 42,
        token: "job-token-42".to_string(),
        allow_git_fetch: true,
        git_info: GitInfo {
            repo_url: String::new(),
            sha: String::new(),
            refspecs: Vec::new(),
            depth: 0,
        },
        variables: vec![
            JobVariable {
                key: "SECRET".to_string(),
                value: "hunter2".to_string(),
                public: false,
                masked: true,
            },
            JobVariable {
                key: "SHOWN".to_string(),
                value: "value".to_string(),
                public: true,
                masked: false,
            },
        ],
        steps: Vec::new(),
        dependencies,
        artifacts: Vec::new(),
        token_mask_prefixes: Vec::new(),
    };
    let client = Client::new(
        "https://gitlab.example.com".to_string(),
        "token".to_string(),
        "s_1".to_string(),
        ClientMetadata::default(),
    );
    Job::new(client, response, "/tmp/42".to_string())
}

#[test]
fn masked_variables_are_not_shown() {
    let job = job(&[]);
    let secret = job.variable("SECRET").unwrap();
    assert_eq!(secret.key(), "SECRET");
    assert_eq!(secret.value(), "hunter2");
    assert_eq!(secret.display(), "<MASKED>");
    assert!(secret.masked());
    assert!(!secret.public());
    let shown = job.variable("SHOWN").unwrap();
    assert_eq!(shown.display(), "value");
    assert!(job.variable("OTHER").is_none());
    let keys: Vec<&str> = job.variables().iter().map(|v| v.key()).collect();
    assert_eq!(keys, vec!["SECRET", "SHOWN"]);
    assert_eq!(job.id(), 42);
    assert_eq!(job.build_dir(), "/tmp/42");
}

#[test]
fn log_is_taken_once() {
    let job = job(&[]);
    let mut log = JobLog::new();
    job.trace(&mut log, b"one\n");
    job.trace(&mut log, b"two\n");
    assert_eq!(log.split_trace(), Some(b"one\ntwo\n".to_vec()));
    assert_eq!(log.split_trace(), None);
    job.trace(&mut log, b"");
    assert_eq!(log.split_trace(), None);
}

#[test]
fn downloads_go_where_they_fit() {
    let job = job(&[None, Some(65536), Some(65537)]);
    let mut cache = ArtifactCache::new();
    let dependencies = job.dependencies();
    assert_eq!(dependencies.len(), 3);

    assert!(matches!(dependencies[0].download(&cache), DownloadPlan::NoArtifact));
    assert_eq!(dependencies[0].artifact_filename(), None);
    assert_eq!(dependencies[0].artifact_size(), None);

    assert!(matches!(dependencies[1].download(&cache), DownloadPlan::ToMemory(65536)));
    assert_eq!(dependencies[1].id(), 11);
    assert_eq!(dependencies[1].name(), "build1");
    assert_eq!(dependencies[1].artifact_filename(), Some("artifacts.zip"));
    assert_eq!(dependencies[1].artifact_size(), Some(65536));

    match dependencies[2].download(&cache) {
        DownloadPlan::ToFile(path) => assert_eq!(path, "/tmp/42/artifacts/12.zip"),
        _ => panic!("expected a file"),
    }
    assert_eq!(dependencies[2].artifacts_dir(), "/tmp/42/artifacts");

    let request = dependencies[1].download_request().unwrap();
    assert_eq!(request.method, Method::Get);
    assert_eq!(request.url, "https://gitlab.example.com/api/v4/jobs/11/artifacts");
    assert_eq!(request.headers[0].value, "token1");

    // What was downloaded is not downloaded again.
    cache.insert_data(11, b"data".to_vec());
    cache.insert_file(12, "/tmp/42/artifacts/12.zip".to_string());
    match dependencies[1].download(&cache) {
        DownloadPlan::Cached(CacheData::MemoryBacked(data)) => assert_eq!(data.as_slice(), b"data"),
        _ => panic!("expected cached data"),
    }
    match dependencies[2].download(&cache) {
        DownloadPlan::Cached(CacheData::FileBacked(path)) => {
            assert_eq!(path, "/tmp/42/artifacts/12.zip")
        }
        _ => panic!("expected a cached file"),
    }
}

#[test]
fn retriable_errors() {
    assert!(is_retriable_error(&Error::Request("timeout".to_string())));
    assert!(is_retriable_error(&Error::UnexpectedStatus(500)));
    assert!(is_retriable_error(&Error::UnexpectedStatus(599)));
    assert!(!is_retriable_error(&Error::UnexpectedStatus(404)));
    assert!(!is_retriable_error(&Error::UnexpectedStatus(600)));
    assert!(!is_retriable_error(&Error::JobCancelled));
    assert!(!is_retriable_error(&Error::WriteFailure(String::new())));
}

#[test]
fn downloads_are_attempted_five_times() {
    let failure = Err(Error::UnexpectedStatus(503));
    let mut retry = DownloadRetry::new();
    assert_eq!(retry.delay_after(&failure), Some(900));
    assert_eq!(retry.delay_after(&failure), Some(900));
    assert_eq!(retry.delay_after(&failure), Some(1800));
    assert_eq!(retry.delay_after(&failure), Some(2700));
    assert_eq!(retry.delay_after(&failure), None);
    assert_eq!(retry.delay_after(&failure), None);
}

#[test]
fn final_outcomes_are_not_repeated() {
    let mut retry = DownloadRetry::new();
    assert_eq!(retry.delay_after(&Ok(())), None);
    assert_eq!(retry.delay_after(&Err(Error::JobCancelled)), None);
    // An attempt counts whatever came of it.
    assert_eq!(retry.delay_after(&Err(Error::UnexpectedStatus(500))), Some(1800));
}

#[test]
fn waits_vary() {
    let failure = Err(Error::Request("timeout".to_string()));
    let mut retry = DownloadRetry::new();
    for millis in [900, 900, 1800, 2700] {
        let nanos = retry.wait_after(&failure).unwrap();
        assert!(nanos + 1 >= millis * 500_000);
        assert!(nanos <= millis * 1_500_000 + 1);
    }
    assert_eq!(retry.wait_after(&failure), None);
}

#[test]
fn repetitions_are_announced() {
    assert_eq!(
        retry_message("build", &Error::UnexpectedStatus(503)),
        "Error getting artifacts from build: Unexpected reply code 503 Service Unavailable. Retrying"
    );
}

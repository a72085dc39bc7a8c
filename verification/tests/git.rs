use gitlab_runner::client::{Client, ClientMetadata, GitInfo, JobResponse, JobVariable};
use gitlab_runner::git::{
    check_refspecs, plan_checkout, CheckoutTarget, GitCheckoutError, GitStrategy,
};
use gitlab_runner::job::Job;

const SHA: &str = "265c14cf140a66cfc61e40e4ab45c95ba8df5ed1";

fn strings(list: &[&str]) -> Vec<String> {
    list.iter().map(|s| s.to_string()).collect()
}

fn job(strategy: Option<&str>, sha: &str, refspecs: &[&str], depth: u32) -> Job {
    let variables = strategy
        .iter()
        .map(|s| JobVariable {
            key: "GIT_STRATEGY".to_string(),
            value: s.to_string(),
            public: true,
            masked: false,
        })
        .collect();
    let response = JobResponse {
        id: 1,
        token: "token".to_string(),
        allow_git_fetch: true,
        git_info: GitInfo {
            repo_url: "https://bla/dummy.git".to_string(),
            sha: sha.to_string(),
            refspecs: strings(refspecs),
            depth,
        },
        variables,
        steps: Vec::new(),
        dependencies: Vec::new(),
        artifacts: Vec::new(),
        token_mask_prefixes: Vec::new(),
    };
    let client = Client::new(
        "https://gitlab.example.com".to_string(),
        "token".to_string(),
        "s_1".to_string(),
        ClientMetadata::default(),
    );
    Job::new(client, response, "/tmp/1".to_string())
}

#[test]
fn clone_plan() {
    let refspecs = [
        "+265c14cf140a66cfc61e40e4ab45c95ba8df5ed1:refs/pipelines/120",
        "+refs/heads/custom:refs/remotes/origin/custom",
    ];
    let plan = job(None, SHA, &refspecs, 50).clone_git_repository().unwrap().unwrap();
    assert_eq!(plan.repo_url, "https://bla/dummy.git");
    assert_eq!(plan.sha.len(), 20);
    assert_eq!(plan.sha[0], 0x26);
    assert_eq!(plan.sha[19], 0xd1);
    assert_eq!(plan.refspecs, strings(&refspecs));
    assert_eq!(plan.depth, Some(50));
    assert_eq!(plan.reflog_message(), format!("clone repo at {}", SHA));
    // Upper case digits are the same id.
    let upper = job(None, &SHA.to_uppercase(), &[], 0).clone_git_repository().unwrap().unwrap();
    assert_eq!(upper.sha, plan.sha);
    assert_eq!(upper.depth, None);
}

#[test]
fn strategies() {
    assert!(job(Some("none"), "", &[], 0).clone_git_repository().unwrap().is_none());
    assert!(job(Some("empty"), "", &[], 0).clone_git_repository().unwrap().is_none());
    assert!(job(Some("clone"), SHA, &[], 0).clone_git_repository().unwrap().is_some());
    assert!(job(Some("fetch"), SHA, &[], 0).clone_git_repository().unwrap().is_some());
    match job(Some("pull"), SHA, &[], 0).clone_git_repository() {
        Err(GitCheckoutError::InvalidStrategy(s)) => assert_eq!(s, "pull"),
        _ => panic!("expected an invalid strategy"),
    }
    assert_eq!(GitStrategy::from_name("none").unwrap(), GitStrategy::Untouched);
}

#[test]
fn broken_repositories() {
    match job(None, "xyz", &["a:b:c"], 0).clone_git_repository() {
        Err(GitCheckoutError::InvalidObjectId(s)) => assert_eq!(s, "xyz"),
        _ => panic!("expected an invalid object id"),
    }
    match job(None, SHA, &["refs/heads/a", "+refs/heads/*:refs/x"], 0).clone_git_repository() {
        Err(GitCheckoutError::InvalidRefspec(s)) => assert_eq!(s, "+refs/heads/*:refs/x"),
        _ => panic!("expected an invalid refspec"),
    }
    assert!(check_refspecs(&strings(&["refs/heads/a", ""])).is_ok());
}

#[test]
fn checkout_of_a_commit() {
    let plan = plan_checkout(Some(SHA), &Vec::new(), Some(0)).unwrap();
    assert_eq!(plan.refspecs, vec![format!("+{}", SHA)]);
    assert_eq!(plan.depth, None);
    match plan.target {
        CheckoutTarget::Commit(id) => assert_eq!(id[0..3], [0x26, 0x5c, 0x14]),
        _ => panic!("expected a commit"),
    }
}

#[test]
fn checkout_of_a_branch() {
    let plan = plan_checkout(Some("main"), &strings(&["refs/tags/v1"]), Some(1)).unwrap();
    assert_eq!(
        plan.refspecs,
        strings(&["refs/tags/v1", "+refs/heads/main:refs/remotes/origin/main"])
    );
    assert_eq!(plan.depth, Some(1));
    match plan.target {
        CheckoutTarget::Reference(name) => assert_eq!(name, "refs/remotes/origin/main"),
        _ => panic!("expected a reference"),
    }
    // A name that no refspec can hold is not fetched, but still looked for.
    let plan = plan_checkout(Some("a..b"), &Vec::new(), None).unwrap();
    assert!(plan.refspecs.is_empty());
    assert!(matches!(plan.target, CheckoutTarget::Reference(_)));
}

#[test]
fn checkout_of_the_head() {
    let plan = plan_checkout(None, &Vec::new(), None).unwrap();
    assert!(plan.refspecs.is_empty());
    assert!(matches!(plan.target, CheckoutTarget::Head));
    assert!(plan_checkout(None, &strings(&["+refs/heads/*:refs/x"]), None).is_err());
}

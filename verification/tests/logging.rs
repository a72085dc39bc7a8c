use gitlab_runner::job::JobLog;
use gitlab_runner::logging::{Field, GitlabFilter, GitlabLayer, SpanMarks};

fn field(name: &str, number: Option<u64>, flag: Option<bool>, text: &str) -> Field {
    Field {
        name: name.to_string(),
        number,
        flag,
        text: text.to_string(),
    }
}

fn names(list: &[&str]) -> Vec<String> {
    list.iter().map(|s| s.to_string()).collect()
}

#[test]
fn only_gitlab_fields_are_of_interest() {
    let filter = GitlabFilter {};
    assert!(filter.is_enabled(&names(&["message", "gitlab.output"])));
    assert!(!filter.is_enabled(&names(&["message", "gitlab"])));
    assert!(filter.callsite_enabled(&names(&["gitlab.job"])));
    assert!(!filter.callsite_enabled(&names(&[])));
    assert!(filter.enabled(&names(&["message"]), &vec![names(&["a"]), names(&["gitlab.job"])]));
    assert!(!filter.enabled(&names(&["message"]), &vec![names(&["a"])]));
}

#[test]
fn spans_are_marked() {
    let layer = GitlabLayer {};
    let marks = layer.on_new_span(&vec![
        field("gitlab.job", Some(7), None, "7"),
        field("gitlab.output", None, Some(true), "true"),
    ]);
    assert_eq!(marks, SpanMarks { job: Some(7), output: true });
    let marks = layer.on_new_span(&vec![
        field("gitlab.job", None, None, "seven"),
        field("other", Some(7), Some(true), "7"),
    ]);
    assert_eq!(marks, SpanMarks { job: None, output: false });
}

#[test]
fn events_find_their_job() {
    let layer = GitlabLayer {};
    let plain = vec![field("message", None, None, "hello")];
    let output = vec![
        field("message", None, None, "hello"),
        field("gitlab.output", None, Some(true), "true"),
    ];
    let job = SpanMarks { job: Some(7), output: false };
    let inner = SpanMarks { job: Some(8), output: false };
    let loud = SpanMarks { job: None, output: true };
    assert_eq!(layer.on_event(&output, &vec![job, inner]), Some(7));
    assert_eq!(layer.on_event(&plain, &vec![job]), None);
    assert_eq!(layer.on_event(&plain, &vec![loud, inner]), Some(8));
    assert_eq!(layer.on_event(&output, &vec![loud]), None);
    assert_eq!(layer.on_event(&output, &vec![]), None);
}

#[test]
fn events_are_written_as_lines() {
    let layer = GitlabLayer {};
    let mut log = JobLog::with_token_prefixes(&vec!["glpat-".to_string()]);
    layer.write_event(
        &vec![
            field("gitlab.output", None, Some(true), "true"),
            field("message", None, None, "the token is glpat-abc"),
        ],
        &mut log,
    );
    layer.write_event(&vec![field("message", None, None, "bye")], &mut log);
    assert_eq!(
        log.split_trace(),
        Some(b"the token is glpat-[MASKED]\nbye\n".to_vec())
    );
}

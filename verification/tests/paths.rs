use gitlab_runner::client::{ArtifactFormat, ArtifactWhen, JobArtifact};
use gitlab_runner::paths::{
    artifact_path_matches, is_selected, join_path, normalize_path, path_ancestors,
};
use gitlab_runner::run::upload_name;

fn matches(path: &str, patterns: &[&str]) -> bool {
    let patterns: Vec<String> = patterns.iter().map(|p| p.to_string()).collect();
    artifact_path_matches(path, &patterns)
}

fn artifact(paths: &[&str]) -> JobArtifact {
    JobArtifact {
        name: None,
        untracked: false,
        paths: paths.iter().map(|p| p.to_string()).collect(),
        when: ArtifactWhen::default(),
        artifact_type: "archive".to_string(),
        artifact_format: ArtifactFormat::default(),
        expire_in: None,
    }
}

#[test]
fn test_artifact_path_matches() {
    assert!(matches("abc", &["abc"]));
    assert!(matches("abc", &["a*c"]));
    assert!(matches("abc/d", &["abc"]));
    assert!(matches("abc/d", &["a*c"]));
    assert!(!matches("ab/c", &["a*c"]));
    assert!(matches("abc", &["."]));
    assert!(matches("abc", &["./abc//"]));
    assert!(matches("a/b/c", &["a/**/c"]));
    assert!(matches("a/b/d/e/f/c", &["a/**/c"]));
    assert!(matches("a/b/c.yaml", &["**/*.yaml"]));
    assert!(matches("[", &["["]));
}

#[test]
fn several_patterns_are_alternatives() {
    assert!(matches("b", &["a", "b"]));
    assert!(!matches("c", &["a", "b"]));
    assert!(!matches("c", &[]));
}

#[test]
fn patterns_that_lead_outside_match_nothing() {
    assert!(!matches("abc", &["/abc"]));
    assert!(!matches("abc", &["../abc"]));
    assert!(!matches("abc", &["a/../../abc"]));
    assert!(matches("abc", &["a/../abc"]));
}

#[test]
fn patterns_heed_case_and_dots() {
    assert!(!matches("ABC", &["abc"]));
    assert!(matches(".hidden", &["*"]));
    assert!(!matches("a/b", &["a?b"]));
}

#[test]
fn directories_select_their_content() {
    assert!(matches("src/a/b", &["src"]));
    assert!(matches("src/a/b", &["src/a"]));
    assert!(!matches("source/a", &["src"]));
    // A malformed pattern is a plain path, and a directory too.
    assert!(matches("[/x", &["["]));
    assert!(matches("[/", &["["]));
    assert!(!matches("x", &["["]));
    // What is inside a directory belongs to it, however its path is written.
    assert!(matches("src//b", &["src"]));
    assert!(matches("src/./b", &["src"]));
}

/// All texts over some letters, up to a length.
fn texts(letters: &[&str], length: usize) -> Vec<String> {
    let mut all = vec![String::new()];
    let mut last = all.clone();
    for _ in 0..length {
        let mut next = Vec::new();
        for text in &last {
            for letter in letters {
                next.push(format!("{}{}", text, letter));
            }
        }
        all.extend(next.iter().cloned());
        last = next;
    }
    all
}

#[test]
fn what_lies_below_a_selected_path_is_selected() {
    let paths = texts(&["a", "/", "."], 4);
    for pattern in texts(&["a", "/", "*", "?", "."], 4) {
        for path in &paths {
            let redundant = path.ends_with("/.");
            if !redundant && matches(path, &[&pattern]) {
                for name in ["b", "a.b", ".."] {
                    let below = join_path(path, name);
                    assert!(matches(&below, &[&pattern]), "{} {}", pattern, below);
                }
            }
        }
    }
    // A wildcard takes a dot for a name, where that stands for nothing.
    assert!(matches("a/.", &["a/*"]));
    assert!(!matches("a/./b", &["a/*"]));
    assert!(matches("a/", &["a/*"]));
    assert!(matches("a/b", &["a/*"]));
}

#[test]
fn outcomes_of_a_match() {
    assert!(is_selected(Some(true), "a", "b"));
    assert!(!is_selected(Some(false), "a", "a"));
    assert!(is_selected(None, "[", "["));
    assert!(!is_selected(None, "[", "a"));
    // As a plain path, a pattern is compared part by part.
    assert!(is_selected(None, "[/", "["));
    assert!(is_selected(None, "[/./a", "[//a"));
    assert!(!is_selected(None, "/[", "["));
}

#[test]
fn normal_paths() {
    assert_eq!(normalize_path("a//b/./c"), "a/b/c");
    assert_eq!(normalize_path("a/../b"), "b");
    assert_eq!(normalize_path("../b"), "b");
    assert_eq!(normalize_path("/../b/"), "/b");
    assert_eq!(normalize_path("."), "");
    assert_eq!(normalize_path("/"), "/");
    assert_eq!(normalize_path(""), "");
}

#[test]
fn ancestors_of_paths() {
    assert_eq!(path_ancestors("a/b/c"), vec!["a/b/c", "a/b", "a", ""]);
    assert_eq!(path_ancestors("/a/b"), vec!["/a/b", "/a", "/"]);
    assert_eq!(path_ancestors("/"), vec!["/"]);
    assert_eq!(path_ancestors(""), vec![""]);
    // The same as of the standard library's paths, also where a path is not in its simplest form
    let paths = [
        "abc/", "./abc", ".", "..", "./", "//", "//a", "a//b", "a/./b", "a/.", "a/../b", "/.", "/./a",
        ".//a/", "a/b//", "a/b/./", "..//..", "[/",
    ];
    for path in paths {
        let expected: Vec<String> = std::path::Path::new(path)
            .ancestors()
            .map(|p| p.to_str().unwrap().to_string())
            .collect();
        assert_eq!(path_ancestors(path), expected, "{}", path);
    }
    assert_eq!(path_ancestors("abc/"), vec!["abc/", ""]);
    assert_eq!(path_ancestors("./abc"), vec!["./abc", ".", ""]);
}

#[test]
fn joined_paths() {
    assert_eq!(join_path("/tmp", "12"), "/tmp/12");
    assert_eq!(join_path("/tmp/", "12"), "/tmp/12");
    assert_eq!(join_path("", "12"), "12");
}

#[test]
fn names_of_uploaded_files() {
    let a = artifact(&["out"]);
    assert_eq!(upload_name(&a, "./out//log.txt"), Some("out/log.txt".to_string()));
    assert_eq!(upload_name(&a, "other"), None);
}

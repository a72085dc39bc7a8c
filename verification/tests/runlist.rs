use gitlab_runner::runlist::RunList;

#[test]
fn runlist() {
    let mut runlist = RunList::new();

    runlist.insert(1, 2);
    // Room for a second one
    assert!(runlist.has_space(2));
    assert!(!runlist.has_space(1));

    assert_eq!(runlist.size(), 1);
    assert_eq!(runlist.lookup(1), Some(&2));

    runlist.remove(1);

    assert!(runlist.has_space(1));
    assert_eq!(runlist.size(), 0);
    assert_eq!(runlist.lookup(1), None);
}

#[test]
fn a_job_is_counted_once() {
    let mut runlist = RunList::new();
    runlist.insert(7, "a");
    runlist.insert(7, "b");
    assert_eq!(runlist.size(), 1);
    assert_eq!(runlist.lookup(7), Some(&"b"));
    runlist.insert(8, "c");
    assert_eq!(runlist.size(), 2);
    runlist.remove(9);
    assert_eq!(runlist.size(), 2);
}

use git_conform::tracking::{
    dedup_paths, entries_to_add, repo_is_tracked, split_by_tracking, tracked_repos, TrackingFile,
};

fn strings(v: &[&str]) -> Vec<String> {
    v.iter().map(|s| s.to_string()).collect()
}

#[test]
fn case_check_all() {
    let tests_dir = "/home/user/.local/share/git-conform/tests";
    let tracking_file = TrackingFile {
        path: String::new(),
        contents: format!("{tests_dir}/repo1\n{tests_dir}/repo2\n{tests_dir}/repo3"),
    };
    assert_eq!(
        tracked_repos(&tracking_file),
        Ok(vec![
            format!("{tests_dir}/repo1"),
            format!("{tests_dir}/repo2"),
            format!("{tests_dir}/repo3")
        ])
    );
}

#[test]
fn case_check_all_empty_tracking_file() {
    let tracking_file = TrackingFile { path: String::new(), contents: String::new() };
    assert_eq!(tracked_repos(&tracking_file), Err(String::from("No repository is being tracked")));
}

#[test]
fn tracked_means_a_whole_line() {
    assert!(repo_is_tracked("/a/b", "/x\n/a/b\n"));
    assert!(repo_is_tracked("/a/b", "/x\r\n/a/b\r\n"));
    assert!(!repo_is_tracked("/a", "/x\n/a/b\n"));
    assert!(!repo_is_tracked("", ""));
}

#[test]
fn dedup_keeps_first_occurrences() {
    assert_eq!(dedup_paths(&strings(&["b", "a", "b", "c", "a"])), strings(&["b", "a", "c"]));
    assert_eq!(dedup_paths(&Vec::new()), Vec::<String>::new());
}

#[test]
fn adding_appends_only_new_repositories() {
    let repos = strings(&["/r2", "/r1", "/r3", "/r2"]);
    let (known, fresh) = split_by_tracking(&repos, "/r1\n");
    assert_eq!(known, strings(&["/r1"]));
    assert_eq!(fresh, strings(&["/r2", "/r3"]));
    assert_eq!(entries_to_add(&repos, "/r1\n"), "/r2\n/r3\n");
    assert_eq!(entries_to_add(&strings(&["/r1"]), "/r1\n"), "");
}

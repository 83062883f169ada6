use git_conform::tracking::{remove_all, remove_repos, TrackingFile};

fn tracking(contents: &str) -> TrackingFile {
    TrackingFile { path: String::from("/tmp/tracked"), contents: contents.to_string() }
}

#[test]
fn case_remove_repos_all() {
    let tracking_file = tracking("repo1\nrepo2\nrepo3");
    let repos: Vec<String> = tracking_file.contents.lines().map(String::from).collect();
    let updated = remove_repos(&repos, &tracking_file);
    assert!(updated.is_ok());
    assert!(updated.unwrap().is_empty());
}

#[test]
fn case_remove_repos_only_one() {
    let tracking_file = tracking("repo1\nrepo2\nrepo3");
    let repos: Vec<&str> = tracking_file.contents.lines().collect();
    let updated = remove_repos(&vec![repos[1].to_string()], &tracking_file);
    assert!(updated.is_ok());
    let updated = updated.unwrap();
    assert!(!updated.contains(repos[1]));
    assert_eq!(updated, "repo1\nrepo3");
}

#[test]
fn case_remove_repos_non_existent() {
    let tracking_file = tracking("repo1\nrepo2\nrepo3");
    let mut repos: Vec<String> = Vec::new();
    for line in tracking_file.contents.lines() {
        repos.push(line.to_string());
        repos.push("fownfnf".to_string());
    }
    assert_eq!(
        remove_repos(&repos, &tracking_file),
        Err(String::from("Repositories validation failed"))
    );
}

#[test]
fn case_remove_repos_empty_tracking_file() {
    let tracking_file = tracking("");
    assert_eq!(
        remove_repos(&vec!["repo2".to_string()], &tracking_file),
        Err(String::from("No repository is being tracked"))
    );
}

#[test]
fn case_remove_all() {
    let tracking_file = tracking("repo1\nrepo2\nrepo3");
    assert_eq!(remove_all(&tracking_file), Ok(()));
}

#[test]
fn case_remove_all_empty_tracking_file() {
    let tracking_file = tracking("");
    assert_eq!(remove_all(&tracking_file), Err(String::from("No repository is being tracked")));
}

#[test]
fn removal_compares_trimmed_lines() {
    let tracking_file = tracking("/a\n/b \r\n/c\n");
    assert_eq!(remove_repos(&vec![String::from("/a")], &tracking_file), Ok(String::from("/b \n/c")));
}

#[test]
fn removal_joins_the_kept_lines() {
    let tracking_file = tracking("a\nb");
    assert_eq!(remove_repos(&vec![String::from("b")], &tracking_file), Ok(String::from("a")));
    let tracking_file = tracking("a\nb\nc\n");
    assert_eq!(remove_repos(&vec![String::from("a")], &tracking_file), Ok(String::from("b\nc")));
}

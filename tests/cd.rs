use git_conform::tracking::{cd_to_repo, TrackingFile};

const TESTS_DIR: &str = "/home/user/.local/share/git-conform/tests";

fn tracking(contents: String) -> TrackingFile {
    TrackingFile { path: format!("/home/user/.local/share/git-conform/tracked"), contents }
}

#[test]
fn test_cd_to_existing_repo() {
    let repos = vec![
        format!("{}/repo1", TESTS_DIR),
        format!("{}/repo2", TESTS_DIR),
        format!("{}/repo3", TESTS_DIR),
    ];
    let tracking_file = tracking(repos.join("\n"));
    for n in 1..=3 {
        let repo_name = format!("repo{}", n);
        let expected_path = format!("{}/repo{}", TESTS_DIR, n);
        assert_eq!(cd_to_repo(&repo_name, &tracking_file), Ok(expected_path));
    }
}

#[test]
fn test_cd_to_nonexistent_repo() {
    let tracking_file = tracking(format!("{}/repo1", TESTS_DIR));
    let fake_repo = "fake_repo";
    assert_eq!(
        cd_to_repo(fake_repo, &tracking_file),
        Err(format!("Repository '{}' not found in tracking file", fake_repo))
    );
}

#[test]
fn test_cd_with_empty_tracking_file() {
    let tracking_file = tracking(String::new());
    assert_eq!(
        cd_to_repo("any_repo", &tracking_file),
        Err(String::from("No repository is being tracked"))
    );
}

#[test]
fn test_cd_to_hidden_repo() {
    let hidden_repo = format!("{}/.hidden/repo1", TESTS_DIR);
    let tracking_file = tracking(hidden_repo.clone());
    assert_eq!(cd_to_repo("repo1", &tracking_file), Ok(hidden_repo));
}

#[test]
fn test_cd_multiple_repos_same_name() {
    let repos = vec![format!("{}/repo1", TESTS_DIR), format!("{}/.hidden/repo1", TESTS_DIR)];
    let tracking_file = tracking(repos.join("\n"));
    let expected_path = format!("{}/repo1", TESTS_DIR);
    assert_eq!(cd_to_repo("repo1", &tracking_file), Ok(expected_path));
}

#[test]
fn test_cd_to_fake_repo() {
    let tracking_file = tracking(format!("{}/repo1", TESTS_DIR));
    assert_eq!(
        cd_to_repo("fake_repo1", &tracking_file),
        Err(String::from("Repository 'fake_repo1' not found in tracking file"))
    );
}

#[test]
fn cd_matches_the_last_component_only() {
    let tracking_file = tracking(String::from("/srv/repo1/\n/srv/repo2/.\n/srv/up/..\n/\n"));
    assert_eq!(cd_to_repo("repo1", &tracking_file), Ok(String::from("/srv/repo1/")));
    assert_eq!(cd_to_repo("repo2", &tracking_file), Ok(String::from("/srv/repo2/.")));
    assert_eq!(
        cd_to_repo("..", &tracking_file),
        Err(String::from("Repository '..' not found in tracking file"))
    );
    assert_eq!(
        cd_to_repo("srv", &tracking_file),
        Err(String::from("Repository 'srv' not found in tracking file"))
    );
}

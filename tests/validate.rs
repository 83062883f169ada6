use git_conform::validate::{dir_notice, dirs_valid, repo_notice, repos_valid, scan, PathCheck};

fn repeat(n: usize, c: fn() -> PathCheck) -> Vec<PathCheck> {
    (0..n).map(|_| c()).collect()
}

#[test]
fn case_add_fake() {
    assert_eq!(repos_valid(repeat(6, || PathCheck::Rejected)), Err(String::from("Repositories validation failed")));
}

#[test]
fn case_add_regular_dirs() {
    assert_eq!(repos_valid(repeat(6, || PathCheck::Rejected)), Err(String::from("Repositories validation failed")));
}

#[test]
fn case_add_non_existent() {
    assert_eq!(repos_valid(repeat(3, || PathCheck::Missing)), Err(String::from("Repositories validation failed")));
}

#[test]
fn case_add_files() {
    assert_eq!(repos_valid(repeat(3, || PathCheck::Rejected)), Err(String::from("Repositories validation failed")));
}

#[test]
fn case_check_repos_fake() {
    assert_eq!(repos_valid(repeat(6, || PathCheck::Rejected)), Err(String::from("Repositories validation failed")));
}

#[test]
fn case_check_repos_regular_dirs() {
    assert_eq!(repos_valid(repeat(6, || PathCheck::Rejected)), Err(String::from("Repositories validation failed")));
}

#[test]
fn case_check_repos_non_existent() {
    assert_eq!(repos_valid(repeat(3, || PathCheck::Missing)), Err(String::from("Repositories validation failed")));
}

#[test]
fn case_check_repos_files() {
    assert_eq!(repos_valid(repeat(3, || PathCheck::Rejected)), Err(String::from("Repositories validation failed")));
}

#[test]
fn case_scan_dirs_non_existent() {
    assert_eq!(dirs_valid(repeat(3, || PathCheck::Missing)), Err(String::from("Directories validation failed")));
}

#[test]
fn case_scan_dirs_files() {
    assert_eq!(dirs_valid(repeat(3, || PathCheck::Rejected)), Err(String::from("Directories validation failed")));
}

#[test]
fn valid_paths_come_back_absolute() {
    let checks = vec![PathCheck::Valid(String::from("/abs/a")), PathCheck::Valid(String::from("/abs/b"))];
    assert_eq!(repos_valid(checks), Ok(vec![String::from("/abs/a"), String::from("/abs/b")]));
    let mixed = vec![PathCheck::Valid(String::from("/abs/a")), PathCheck::NotUtf8];
    assert_eq!(dirs_valid(mixed), Err(String::from("Directories validation failed")));
    assert_eq!(repos_valid(Vec::new()), Ok(Vec::new()));
}

#[test]
fn notices_name_the_path() {
    assert_eq!(repo_notice("x", &PathCheck::Missing), Some(String::from("Repository 'x' does not exist")));
    assert_eq!(
        repo_notice("x", &PathCheck::Unknown),
        Some(String::from("Cannot check the existance of repository 'x'"))
    );
    assert_eq!(repo_notice("x", &PathCheck::Rejected), Some(String::from("'x' is not a git repository")));
    assert_eq!(
        repo_notice("x", &PathCheck::NotUtf8),
        Some(String::from("x: The path contains invalid UTF-8 characters"))
    );
    assert_eq!(repo_notice("x", &PathCheck::Valid(String::from("/x"))), None);
    assert_eq!(dir_notice("d", &PathCheck::Missing), Some(String::from("Directory 'd' does not exist")));
    assert_eq!(dir_notice("d", &PathCheck::Rejected), Some(String::from("'d' is not a directory")));
}

#[test]
fn scan_reports_the_first_bad_directory() {
    let dirs = vec![String::from("ok"), String::from("gone"), String::from("file")];
    let checks = vec![PathCheck::Valid(String::from("/ok")), PathCheck::Missing, PathCheck::Rejected];
    assert_eq!(scan(&dirs, &checks), Err(String::from("Directory 'gone' does not exist")));
    let checks = vec![PathCheck::Valid(String::from("/ok")), PathCheck::Unknown, PathCheck::Rejected];
    assert_eq!(scan(&dirs, &checks), Err(String::from("Cannot check the existance of directory 'gone'")));
    let all_ok = vec![
        PathCheck::Valid(String::from("/ok")),
        PathCheck::Valid(String::from("/gone")),
        PathCheck::Valid(String::from("/file")),
    ];
    assert_eq!(scan(&dirs, &all_ok), Ok(()));
}

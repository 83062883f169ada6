use git_conform::scan::{entry_is_hidden, scan_all, scan_job};
use git_conform::shell::cd_setup;
use git_conform::tracking::TrackingFile;

fn tracking(contents: &str) -> TrackingFile {
    TrackingFile { path: String::from("/tmp/tracked"), contents: contents.to_string() }
}

#[test]
fn scan_all_starts_at_home() {
    let job = scan_all(String::from("/home/user"), &tracking("/home/user/a\n"), true);
    assert_eq!(job.roots, vec![String::from("/home/user")]);
    assert_eq!(job.known, "/home/user/a\n");
    assert!(job.scan_hidden);
}

#[test]
fn hidden_entries() {
    assert!(entry_is_hidden(".hidden"));
    assert!(entry_is_hidden(".gitx"));
    assert!(entry_is_hidden(".git2"));
    assert!(!entry_is_hidden(".git"));
    assert!(!entry_is_hidden("repo"));
    assert!(!entry_is_hidden(""));
}

#[test]
fn hidden_directories_are_entered_only_on_request() {
    let with = scan_job(vec![String::from("/t")], &tracking(""), true);
    let without = scan_job(vec![String::from("/t")], &tracking(""), false);
    assert!(with.descends_into(".hidden"));
    assert!(!without.descends_into(".hidden"));
    assert!(without.descends_into(".git"));
    assert!(without.descends_into("repo1"));
}

#[test]
fn candidates_are_untracked_git_directories() {
    let job = scan_job(vec![String::from("/t")], &tracking("/t/repo1\n"), true);
    assert_eq!(job.candidate("/t/repo2/.git"), Some(String::from("/t/repo2")));
    assert_eq!(job.candidate("/t/repo1/.git"), None);
    assert_eq!(job.candidate("/t/repo2/src"), None);
    assert_eq!(job.candidate("/t/repo2/.gitignore"), None);
}

#[test]
fn cd_setup_by_shell() {
    let function = "\ngitconform_cd() {\n    cd \"$(git-conform cd \"$1\")\" || return\n}\n";
    assert_eq!(
        cd_setup("/home/u", "/bin/bash"),
        Ok((String::from("/home/u/.bashrc"), String::from(function)))
    );
    assert_eq!(
        cd_setup("/home/u", "/usr/bin/zsh"),
        Ok((String::from("/home/u/.zshrc"), String::from(function)))
    );
    assert_eq!(cd_setup("/home/u", "/usr/bin/fish"), Err(String::from("Unsupported shell: /usr/bin/fish")));
}

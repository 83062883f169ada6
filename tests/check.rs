use git_conform::divergence::{divergence_line, remotes_diff, rev_list_counts};
use git_conform::inspect::{inspect_report, GitQuery, InspectStep, Inspection};
use git_conform::schedule::{error_line, finish_of, outcome_of, CheckRun, Finish, TaskOutcome};
use git_conform::status::{branch_list, remote_list, repo_status};

fn strings(v: &[&str]) -> Vec<String> {
    v.iter().map(|s| s.to_string()).collect()
}

/// A repository as `git` would describe it.
struct Repo {
    status: &'static str,
    branch: &'static str,
    remote: &'static str,
    counts: fn(&str, &str) -> &'static str,
}

fn query_text(q: &GitQuery) -> String {
    match q {
        GitQuery::Status => String::from("status -s"),
        GitQuery::Branches => String::from("branch"),
        GitQuery::Remotes => String::from("remote"),
        GitQuery::Fetch { remote } => format!("fetch {remote}"),
        GitQuery::Counts { remote, branch } => {
            format!("rev-list --left-right --count {remote}/{branch}...{branch}")
        }
    }
}

/// Runs an inspection of `path` against `repo`; gives its report and the
/// commands it ran.
fn inspect(path: &str, repo: &Repo) -> (String, Vec<String>) {
    let mut insp = Inspection::new(path.to_string());
    let mut ran = Vec::new();
    loop {
        match insp.next_step() {
            InspectStep::Report(r) => return (r, ran),
            InspectStep::Run(q) => {
                ran.push(query_text(&q));
                let out = match &q {
                    GitQuery::Status => repo.status,
                    GitQuery::Branches => repo.branch,
                    GitQuery::Remotes => repo.remote,
                    GitQuery::Fetch { .. } => "",
                    GitQuery::Counts { remote, branch } => (repo.counts)(remote, branch),
                };
                insp.record(out);
            }
        }
    }
}

fn level(_: &str, _: &str) -> &'static str {
    "0\t0\n"
}

fn none(_: &str, _: &str) -> &'static str {
    ""
}

#[test]
fn clean_repository_gives_empty_report() {
    let repo = Repo { status: "", branch: "* main\n  dev\n", remote: "origin\nbackup\n", counts: level };
    let (report, ran) = inspect("/r/a", &repo);
    assert_eq!(report, "");
    assert_eq!(
        ran,
        strings(&[
            "status -s",
            "branch",
            "remote",
            "fetch origin",
            "fetch backup",
            "rev-list --left-right --count origin/main...main",
            "rev-list --left-right --count backup/main...main",
            "rev-list --left-right --count origin/dev...dev",
            "rev-list --left-right --count backup/dev...dev",
        ])
    );
    assert!(matches!(finish_of(&outcome_of(Ok(report))), Finish::Clear));
}

#[test]
fn changed_files_are_listed_one_per_line() {
    let repo = Repo { status: " M src/a.rs\r\n?? notes.txt\n", branch: "* main\n", remote: "", counts: none };
    let (report, ran) = inspect("/r/b", &repo);
    assert_eq!(report, "/r/b\n  M src/a.rs\n  ?? notes.txt\n");
    assert_eq!(ran, strings(&["status -s", "branch", "remote"]));
}

#[test]
fn repository_without_branches_stops_early() {
    let repo = Repo { status: "?? new.txt\n", branch: "", remote: "origin\n", counts: level };
    let (report, ran) = inspect("/r/c", &repo);
    assert_eq!(report, "");
    assert_eq!(ran, strings(&["status -s", "branch"]));
}

#[test]
fn scenario_only_the_modified_repository_prints() {
    fn counts(_: &str, _: &str) -> &'static str {
        "0\t0\n"
    }
    let a = Repo { status: "", branch: "* main\n", remote: "origin\n", counts };
    let b = Repo { status: " M one.rs\n M two.rs\n", branch: "* main\n", remote: "origin\n", counts };
    let c = Repo { status: "", branch: "", remote: "", counts };
    let mut run = CheckRun::new(3);
    let mut shown = Vec::new();
    for (i, (path, repo)) in [("/r/A", &a), ("/r/B", &b), ("/r/C", &c)].into_iter().enumerate() {
        let (report, _) = inspect(path, repo);
        let outcome = outcome_of(Ok(report));
        if let Finish::Message(m) = finish_of(&outcome) {
            shown.push(m);
        }
        run.settle(i, outcome);
    }
    assert_eq!(shown, vec![String::from("/r/B\n  M one.rs\n  M two.rs\n")]);
    assert!(run.is_complete());
    assert_eq!(run.result(), Ok(()));
}

#[test]
fn scenario_branch_ahead_and_behind() {
    fn counts(remote: &str, branch: &str) -> &'static str {
        if remote == "origin" && branch == "main" { "3\t1\n" } else { "" }
    }
    let d = Repo { status: "", branch: "* main\n", remote: "origin\n", counts };
    let (report, _) = inspect("/r/D", &d);
    assert_eq!(report, "/r/D\n  main\n    1 commit(s) ahead of, 3 commit(s) behind origin/main\n");
    assert_eq!(
        divergence_line(1, 3, "origin", "main"),
        Some(String::from("1 commit(s) ahead of, 3 commit(s) behind origin/main"))
    );
}

#[test]
fn divergence_lines_by_case() {
    assert_eq!(divergence_line(0, 0, "origin", "main"), None);
    assert_eq!(divergence_line(0, 7, "origin", "main"), Some(String::from("7 commit(s) behind origin/main")));
    assert_eq!(divergence_line(12, 0, "up", "dev"), Some(String::from("12 commit(s) ahead of up/dev")));
    assert_eq!(
        divergence_line(4294967295, 10, "o", "b"),
        Some(String::from("4294967295 commit(s) ahead of, 10 commit(s) behind o/b"))
    );
}

#[test]
fn rev_list_output_is_behind_then_ahead() {
    assert_eq!(rev_list_counts("3\t1\n"), Some((3, 1)));
    assert_eq!(rev_list_counts("  0 0 "), Some((0, 0)));
    assert_eq!(rev_list_counts("+5\t2"), Some((5, 2)));
    assert_eq!(rev_list_counts(""), None);
    assert_eq!(rev_list_counts("7\n"), None);
    assert_eq!(rev_list_counts("x\t1\n"), None);
    assert_eq!(rev_list_counts("-1\t1\n"), None);
    assert_eq!(rev_list_counts("4294967296\t1\n"), None);
    assert_eq!(rev_list_counts("4294967295\t1\n"), Some((4294967295, 1)));
}

#[test]
fn remotes_diff_blocks() {
    let remotes = strings(&["origin", "backup", "gone"]);
    let outputs = strings(&["0\t2\n", "5\t0\n", ""]);
    assert_eq!(
        remotes_diff("dev", &remotes, &outputs),
        "  dev\n    2 commit(s) ahead of origin/dev\n    5 commit(s) behind backup/dev\n"
    );
    assert_eq!(remotes_diff("dev", &remotes, &strings(&["0\t0\n", "", "junk"])), "");
    assert_eq!(remotes_diff("dev", &Vec::new(), &Vec::new()), "");
}

#[test]
fn status_entries_are_trimmed_and_indented() {
    assert_eq!(repo_status(""), "");
    assert_eq!(repo_status(" M a.txt\n?? b.txt\n"), "  M a.txt\n  ?? b.txt\n");
    assert_eq!(repo_status("A  c.txt\u{3000}\r\n"), "  A  c.txt\n");
    assert_eq!(repo_status("\n"), "  \n");
}

#[test]
fn branch_and_remote_listings() {
    assert_eq!(branch_list("  dev\n* main\n  feature/x\n"), strings(&["dev", "main", "feature/x"]));
    assert_eq!(branch_list(""), Vec::<String>::new());
    assert_eq!(remote_list("origin\nupstream\n"), strings(&["origin", "upstream"]));
    assert_eq!(remote_list(""), Vec::<String>::new());
}

#[test]
fn report_puts_status_before_divergence() {
    let counts = vec![strings(&["1\t0\n"]), strings(&["0\t0\n"])];
    let report = inspect_report("/r/e", " M x\n", &strings(&["main", "dev"]), &strings(&["origin"]), &counts);
    assert_eq!(report, "/r/e\n  M x\n  main\n    1 commit(s) behind origin/main\n");
    let clean = vec![strings(&["0\t0\n"]), strings(&[""])];
    assert_eq!(inspect_report("/r/e", "", &strings(&["main", "dev"]), &strings(&["origin"]), &clean), "");
    assert_eq!(inspect_report("/r/e", " M x\n", &Vec::new(), &strings(&["origin"]), &Vec::new()), "");
}

#[test]
fn checking_twice_gives_the_same_reports() {
    let repo = Repo { status: "", branch: "* main\n", remote: "origin\n", counts: level };
    let first = inspect("/r/f", &repo).0;
    let second = inspect("/r/f", &repo).0;
    assert_eq!(first, second);
    assert_eq!(first, "");
}

#[test]
fn every_task_settles_once_in_any_order() {
    let mut run = CheckRun::new(3);
    assert_eq!(run.len(), 3);
    assert_eq!(run.settled(), 0);
    run.settle(2, TaskOutcome::Failed(String::from("git: not found")));
    assert!(!run.is_complete());
    run.settle(0, TaskOutcome::Clean);
    run.settle(1, TaskOutcome::Reported(String::from("/r\n  M x\n")));
    assert!(run.is_settled(1));
    assert_eq!(run.settled(), 3);
    assert!(run.is_complete());
    assert_eq!(run.result(), Ok(()));
}

#[test]
fn first_crashed_task_fails_the_check() {
    let mut run = CheckRun::new(3);
    run.settle(2, TaskOutcome::Crashed(String::from("task 2 panicked")));
    run.settle(1, TaskOutcome::Crashed(String::from("task 1 panicked")));
    run.settle(0, TaskOutcome::Clean);
    assert_eq!(run.result(), Err(String::from("task 1 panicked")));
}

#[test]
fn outcomes_and_how_they_show() {
    assert!(matches!(outcome_of(Ok(String::new())), TaskOutcome::Clean));
    assert!(matches!(outcome_of(Ok(String::from("r\n"))), TaskOutcome::Reported(_)));
    assert!(matches!(finish_of(&TaskOutcome::Reported(String::from("r\n"))), Finish::Message(m) if m == "r\n"));
    assert!(matches!(finish_of(&outcome_of(Err(String::from("boom")))), Finish::Message(m) if m == "git-conform: boom"));
    assert_eq!(error_line("x"), "git-conform: x");
}

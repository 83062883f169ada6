//! What the checks of the paths given on the command line decide: which
//! notice each failing path gets, and whether the command goes on. Looking at
//! the file system is left to the caller, which reports each path as a
//! `PathCheck`.

use vstd::prelude::*;

use crate::text::{push_str, string_from};

verus! {

/// What the file system and `git` said of one given path.
pub enum PathCheck {
    /// it does not exist
    Missing,
    /// whether it exists could not be found out
    Unknown,
    /// it exists, but is not what the command wants (a repository, a directory)
    Rejected,
    /// its absolute form is not valid UTF-8
    NotUtf8,
    /// it is fine; its absolute form
    Valid(String),
}

pub open spec fn is_valid(c: PathCheck) -> bool {
    c is Valid
}

/// The notice for a given repository path that failed its check.
pub open spec fn repo_notice_text(repo: Seq<char>, c: PathCheck) -> Option<Seq<char>> {
    match c {
        PathCheck::Missing => Some("Repository '"@ + repo + "' does not exist"@),
        PathCheck::Unknown => Some("Cannot check the existance of repository '"@ + repo + "'"@),
        PathCheck::Rejected => Some("'"@ + repo + "' is not a git repository"@),
        PathCheck::NotUtf8 => Some(repo + ": The path contains invalid UTF-8 characters"@),
        PathCheck::Valid(_) => None,
    }
}

/// The notice for a given directory path that failed its check.
pub open spec fn dir_notice_text(dir: Seq<char>, c: PathCheck) -> Option<Seq<char>> {
    match c {
        PathCheck::Missing => Some("Directory '"@ + dir + "' does not exist"@),
        PathCheck::Unknown => Some("Cannot check the existance of directory '"@ + dir + "'"@),
        PathCheck::Rejected => Some("'"@ + dir + "' is not a directory"@),
        PathCheck::NotUtf8 => Some(dir + ": The path contains invalid UTF-8 characters"@),
        PathCheck::Valid(_) => None,
    }
}

fn notice(pre: &str, path: &str, post: &str) -> (r: String)
    ensures
        r@ == pre@ + path@ + post@,
{
    let mut out: Vec<char> = Vec::new();
    push_str(&mut out, pre);
    push_str(&mut out, path);
    push_str(&mut out, post);
    string_from(&out)
}

/// The notice for the repository path `repo` with check `c`, if it failed.
pub fn repo_notice(repo: &str, c: &PathCheck) -> (r: Option<String>)
    ensures
        match r {
            Some(s) => repo_notice_text(repo@, *c) == Some(s@),
            None => repo_notice_text(repo@, *c) is None,
        },
{
    match c {
        PathCheck::Missing => Some(notice("Repository '", repo, "' does not exist")),
        PathCheck::Unknown => Some(notice("Cannot check the existance of repository '", repo, "'")),
        PathCheck::Rejected => Some(notice("'", repo, "' is not a git repository")),
        PathCheck::NotUtf8 => {
            let m = notice("", repo, ": The path contains invalid UTF-8 characters");
            proof {
                reveal_strlit("");
                assert(""@ + repo@ =~= repo@);
            }
            Some(m)
        },
        PathCheck::Valid(_) => None,
    }
}

/// The notice for the directory path `dir` with check `c`, if it failed.
pub fn dir_notice(dir: &str, c: &PathCheck) -> (r: Option<String>)
    ensures
        match r {
            Some(s) => dir_notice_text(dir@, *c) == Some(s@),
            None => dir_notice_text(dir@, *c) is None,
        },
{
    match c {
        PathCheck::Missing => Some(notice("Directory '", dir, "' does not exist")),
        PathCheck::Unknown => Some(notice("Cannot check the existance of directory '", dir, "'")),
        PathCheck::Rejected => Some(notice("'", dir, "' is not a directory")),
        PathCheck::NotUtf8 => {
            let m = notice("", dir, ": The path contains invalid UTF-8 characters");
            proof {
                reveal_strlit("");
                assert(""@ + dir@ =~= dir@);
            }
            Some(m)
        },
        PathCheck::Valid(_) => None,
    }
}

/// The absolute paths of the checks, where every one of them is valid.
pub open spec fn valid_paths(checks: Seq<PathCheck>) -> Option<Seq<Seq<char>>> {
    if forall|i: int| 0 <= i < checks.len() ==> is_valid(#[trigger] checks[i]) {
        Some(checks.map_values(|c: PathCheck| c->Valid_0@))
    } else {
        None
    }
}

fn all_valid(checks: Vec<PathCheck>) -> (r: Option<Vec<String>>)
    ensures
        match r {
            Some(v) => valid_paths(checks@) == Some(v.deep_view()),
            None => valid_paths(checks@) is None,
        },
{
    let mut out: Vec<String> = Vec::new();
    let mut i: usize = 0;
    while i < checks.len()
        invariant
            i <= checks@.len(),
            out@.len() == i,
            forall|j: int| 0 <= j < i ==> is_valid(#[trigger] checks@[j]),
            forall|j: int| 0 <= j < i ==> (#[trigger] out@[j])@ == checks@[j]->Valid_0@,
        decreases checks@.len() - i,
    {
        match &checks[i] {
            PathCheck::Valid(p) => {
                out.push(p.clone());
            },
            _ => {
                assert(!is_valid(checks@[i as int]));
                return None;
            },
        }
        i = i + 1;
    }
    assert(out.deep_view() =~= checks@.map_values(|c: PathCheck| c->Valid_0@));
    Some(out)
}

/// The absolute paths of the given repositories, where each passed its
/// check; otherwise the error that ends the command.
pub fn repos_valid(checks: Vec<PathCheck>) -> (r: Result<Vec<String>, String>)
    ensures
        match r {
            Ok(v) => valid_paths(checks@) == Some(v.deep_view()),
            Err(e) => valid_paths(checks@) is None && e@ == "Repositories validation failed"@,
        },
{
    match all_valid(checks) {
        Some(v) => Ok(v),
        None => Err("Repositories validation failed".to_owned()),
    }
}

/// The absolute paths of the given directories, where each passed its check;
/// otherwise the error that ends the command.
pub fn dirs_valid(checks: Vec<PathCheck>) -> (r: Result<Vec<String>, String>)
    ensures
        match r {
            Ok(v) => valid_paths(checks@) == Some(v.deep_view()),
            Err(e) => valid_paths(checks@) is None && e@ == "Directories validation failed"@,
        },
{
    match all_valid(checks) {
        Some(v) => Ok(v),
        None => Err("Directories validation failed".to_owned()),
    }
}

/// The first of the first `n` directories whose check failed.
pub open spec fn first_failed(checks: Seq<PathCheck>, n: int) -> Option<int>
    decreases n,
{
    if n <= 0 {
        None
    } else {
        match first_failed(checks, n - 1) {
            Some(i) => Some(i),
            None => if !is_valid(checks[n - 1]) {
                Some(n - 1)
            } else {
                None
            },
        }
    }
}

proof fn lemma_first_failed_stays(checks: Seq<PathCheck>, n: int, m: int)
    requires
        0 <= n <= m,
        first_failed(checks, n) is Some,
    ensures
        first_failed(checks, m) == first_failed(checks, n),
    decreases m - n,
{
    if m > n {
        lemma_first_failed_stays(checks, n, m - 1);
    }
}

/// Whether the directories `dirs` can be scanned, each with its check
/// `checks[i]`: the notice of the first one that failed, as the error.
pub fn scan(dirs: &Vec<String>, checks: &Vec<PathCheck>) -> (r: Result<(), String>)
    requires
        dirs@.len() == checks@.len(),
    ensures
        match r {
            Ok(()) => first_failed(checks@, checks@.len() as int) is None,
            Err(e) => first_failed(checks@, checks@.len() as int) matches Some(i) && dir_notice_text(
                dirs@[i]@,
                checks@[i],
            ) == Some(e@),
        },
{
    let mut i: usize = 0;
    while i < checks.len()
        invariant
            dirs@.len() == checks@.len(),
            i <= checks@.len(),
            first_failed(checks@, i as int) is None,
        decreases checks@.len() - i,
    {
        match dir_notice(dirs[i].as_str(), &checks[i]) {
            Some(msg) => {
                assert(first_failed(checks@, i + 1) == Some(i as int));
                proof {
                    lemma_first_failed_stays(checks@, i + 1, checks@.len() as int);
                }
                return Err(msg);
            },
            None => {},
        }
        i = i + 1;
    }
    Ok(())
}

} // verus!

//! The search for untracked repositories: where a scan starts, which
//! directories it enters, and which of the entries it meets are repositories
//! to add. Walking the directories is left to the caller.

use vstd::prelude::*;

use crate::text::{chars_of, ends_with, ends_with_chars, string_of_range};
use crate::tracking::{repo_is_tracked, tracked_paths, TrackingFile};

verus! {

/// A scan: the directories it starts from, the tracking file's contents as it
/// began, and whether it enters hidden directories.
pub struct ScanJob {
    pub roots: Vec<String>,
    pub known: String,
    pub scan_hidden: bool,
}

/// A scan of the directories `dirs`.
pub fn scan_job(dirs: Vec<String>, tracking_file: &TrackingFile, scan_hidden: bool) -> (r: ScanJob)
    ensures
        r.roots@ == dirs@,
        r.known@ == tracking_file.contents@,
        r.scan_hidden == scan_hidden,
{
    ScanJob { roots: dirs, known: tracking_file.contents.clone(), scan_hidden }
}

/// A scan of the whole home directory `home_dir`.
pub fn scan_all(home_dir: String, tracking_file: &TrackingFile, scan_hidden: bool) -> (r: ScanJob)
    ensures
        r.roots.deep_view() == seq![home_dir@],
        r.known@ == tracking_file.contents@,
        r.scan_hidden == scan_hidden,
{
    let mut roots: Vec<String> = Vec::new();
    let ghost h = home_dir@;
    roots.push(home_dir);
    assert(roots.deep_view() =~= seq![h]);
    scan_job(roots, tracking_file, scan_hidden)
}

/// The name of a hidden entry: it starts with `.`, and is not `.git`.
pub open spec fn hidden_name(name: Seq<char>) -> bool {
    name.len() > 0 && name[0] == '.' && name != ".git"@
}

/// Whether an entry named `name` is hidden.
pub fn entry_is_hidden(name: &str) -> (r: bool)
    ensures
        r == hidden_name(name@),
{
    let cs = chars_of(name);
    if cs.len() == 0 || cs[0] != '.' {
        return false;
    }
    let git = chars_of(".git");
    proof {
        reveal_strlit(".git");
    }
    if cs.len() != 4 {
        assert(name@ != ".git"@);
        return true;
    }
    let same = cs[1] == 'g' && cs[2] == 'i' && cs[3] == 't';
    if same {
        assert(cs@ =~= git@);
    } else {
        assert(cs@ != git@) by {
            if cs@ == git@ {
                assert(cs@[1] == git@[1] && cs@[2] == git@[2] && cs@[3] == git@[3]);
            }
        }
    }
    !same
}

/// The repository that a `.git` directory at `entry_path` belongs to.
pub open spec fn git_dir_owner(entry_path: Seq<char>) -> Option<Seq<char>> {
    if ends_with(entry_path, "/.git"@) {
        Some(entry_path.subrange(0, entry_path.len() - "/.git"@.len()))
    } else {
        None
    }
}

impl ScanJob {
    /// Whether the scan enters (or reports) the entry named `name`: hidden
    /// entries only when the scan asks for them.
    pub fn descends_into(&self, name: &str) -> (r: bool)
        ensures
            r == (self.scan_hidden || !hidden_name(name@)),
    {
        self.scan_hidden || !entry_is_hidden(name)
    }

    /// The repository to add for the entry at `entry_path`: the directory
    /// that holds it, where it is a `.git` entry of a repository that the
    /// tracking file does not hold yet.
    pub fn candidate(&self, entry_path: &str) -> (r: Option<String>)
        ensures
            match r {
                Some(p) => git_dir_owner(entry_path@) == Some(p@) && !tracked_paths(
                    self.known@,
                ).contains(p@),
                None => match git_dir_owner(entry_path@) {
                    Some(p) => tracked_paths(self.known@).contains(p),
                    None => true,
                },
            },
    {
        let cs = chars_of(entry_path);
        let suffix = chars_of("/.git");
        if !ends_with_chars(&cs, &suffix) {
            return None;
        }
        let repo = string_of_range(&cs, 0, cs.len() - suffix.len());
        if repo_is_tracked(repo.as_str(), self.known.as_str()) {
            return None;
        }
        Some(repo)
    }
}

} // verus!

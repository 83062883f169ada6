//! The tracking file: the list of tracked repositories, one path on each line.
//!
//! Reading and writing the file is left to the caller; these functions decide
//! what it holds and what changes in it.

use vstd::prelude::*;

use crate::text::{
    chars_of, line_spans, lines, push_range, push_str, ranges_equal, span_texts,
    spans_within, string_from, string_of_range, trim, trim_bounds,
};

verus! {

/// The tracking file: where it is, and what it held when it was read.
pub struct TrackingFile {
    pub path: String,
    pub contents: String,
}

/// The error of an operation that needs tracked repositories where there is
/// none.
pub open spec fn nothing_tracked() -> Seq<char> {
    "No repository is being tracked"@
}

pub fn nothing_tracked_error() -> (r: String)
    ensures
        r@ == nothing_tracked(),
{
    "No repository is being tracked".to_owned()
}

/// The repositories that `contents` tracks.
pub open spec fn tracked_paths(contents: Seq<char>) -> Seq<Seq<char>> {
    lines(contents)
}

/// Whether `repo` is one of the lines of the tracking file.
pub fn repo_is_tracked(repo: &str, track_file_contents: &str) -> (r: bool)
    ensures
        r == tracked_paths(track_file_contents@).contains(repo@),
{
    let cs = chars_of(track_file_contents);
    let rc = chars_of(repo);
    let spans = line_spans(&cs);
    let ghost ls = lines(cs@);
    assert(rc@.subrange(0, rc@.len() as int) =~= rc@);
    let mut k: usize = 0;
    while k < spans.len()
        invariant
            cs@ == track_file_contents@,
            rc@ == repo@,
            rc@.subrange(0, rc@.len() as int) == rc@,
            ls == lines(cs@),
            span_texts(cs@, spans@) == ls,
            spans_within(spans@, cs@.len() as int),
            k <= spans@.len(),
            forall|j: int| 0 <= j < k ==> ls[j] != repo@,
        decreases spans@.len() - k,
    {
        let (a, b) = spans[k];
        assert(ls[k as int] == cs@.subrange(a as int, b as int));
        if ranges_equal(&cs, a, b, &rc, 0, rc.len()) {
            assert(ls[k as int] == repo@);
            return true;
        }
        k = k + 1;
    }
    assert(!ls.contains(repo@));
    false
}

/// The tracked repositories, as a listing prints them: the file as it is.
pub fn list(track_file_contents: &str) -> (r: Result<String, String>)
    ensures
        match r {
            Ok(s) => track_file_contents@.len() > 0 && s@ == track_file_contents@,
            Err(e) => track_file_contents@.len() == 0 && e@ == nothing_tracked(),
        },
{
    if track_file_contents.is_empty() {
        return Err(nothing_tracked_error());
    }
    Ok(track_file_contents.to_owned())
}

/// The repositories that a check of every tracked repository inspects.
pub fn tracked_repos(tracking_file: &TrackingFile) -> (r: Result<Vec<String>, String>)
    ensures
        match r {
            Ok(v) => tracking_file.contents@.len() > 0 && v.deep_view() == tracked_paths(
                tracking_file.contents@,
            ),
            Err(e) => tracking_file.contents@.len() == 0 && e@ == nothing_tracked(),
        },
{
    if tracking_file.contents.as_str().is_empty() {
        return Err(nothing_tracked_error());
    }
    let cs = chars_of(tracking_file.contents.as_str());
    let spans = line_spans(&cs);
    let ghost ls = lines(cs@);
    let mut r: Vec<String> = Vec::new();
    let mut k: usize = 0;
    while k < spans.len()
        invariant
            cs@ == tracking_file.contents@,
            ls == lines(cs@),
            span_texts(cs@, spans@) == ls,
            spans_within(spans@, cs@.len() as int),
            k <= spans@.len(),
            r@.map_values(|s: String| s@) == ls.take(k as int),
        decreases spans@.len() - k,
    {
        let (a, b) = spans[k];
        assert(ls[k as int] == cs@.subrange(a as int, b as int));
        let line = string_of_range(&cs, a, b);
        let ghost prev = r@.map_values(|s: String| s@);
        r.push(line);
        assert(r@.map_values(|s: String| s@) =~= prev.push(line@));
        assert(r@.map_values(|s: String| s@) =~= ls.take(k + 1));
        k = k + 1;
    }
    assert(ls.take(k as int) =~= ls);
    assert(r.deep_view() =~= r@.map_values(|s: String| s@));
    Ok(r)
}

/// `paths` without repeats: each path where it first appears.
pub open spec fn dedup(paths: Seq<Seq<char>>) -> Seq<Seq<char>>
    decreases paths.len(),
{
    if paths.len() == 0 {
        seq![]
    } else {
        let d = dedup(paths.drop_last());
        if d.contains(paths.last()) {
            d
        } else {
            d.push(paths.last())
        }
    }
}

/// `paths` without repeats, in the order in which they first appear.
pub fn dedup_paths(paths: &Vec<String>) -> (r: Vec<String>)
    ensures
        r.deep_view() == dedup(paths.deep_view()),
{
    let ghost ps = paths.deep_view();
    let mut r: Vec<String> = Vec::new();
    let mut i: usize = 0;
    while i < paths.len()
        invariant
            ps == paths.deep_view(),
            i <= ps.len(),
            r@.map_values(|s: String| s@) == dedup(ps.take(i as int)),
        decreases ps.len() - i,
    {
        let ghost d = r@.map_values(|s: String| s@);
        assert(ps.take(i + 1).drop_last() =~= ps.take(i as int));
        assert(ps.take(i + 1).last() == paths[i as int]@);
        let mut seen = false;
        let mut j: usize = 0;
        while j < r.len()
            invariant
                d == r@.map_values(|s: String| s@),
                j <= r@.len(),
                i < paths@.len(),
                seen == (exists|t: int| 0 <= t < j && d[t] == paths[i as int]@),
            decreases r@.len() - j,
        {
            let same = r[j] == paths[i];
            assert(d[j as int] == r@[j as int]@);
            if same {
                seen = true;
            }
            proof {
                if same {
                    assert(0 <= j < j + 1 && d[j as int] == paths[i as int]@);
                } else {
                    assert forall|t: int| 0 <= t < j + 1 && d[t] == paths[i as int]@ implies 0 <= t
                        < j by {}
                }
            }
            j = j + 1;
        }
        assert(seen == d.contains(paths[i as int]@));
        if !seen {
            let p = paths[i].clone();
            r.push(p);
            assert(r@.map_values(|s: String| s@) =~= d.push(p@));
        }
        i = i + 1;
    }
    assert(ps.take(i as int) =~= ps);
    assert(r.deep_view() =~= r@.map_values(|s: String| s@));
    r
}

/// Of `paths`, those that `known` holds and those it does not, each in
/// their order.
pub open spec fn split_tracked(paths: Seq<Seq<char>>, known: Seq<Seq<char>>) -> (
    Seq<Seq<char>>,
    Seq<Seq<char>>,
)
    decreases paths.len(),
{
    if paths.len() == 0 {
        (seq![], seq![])
    } else {
        let (a, b) = split_tracked(paths.drop_last(), known);
        if known.contains(paths.last()) {
            (a.push(paths.last()), b)
        } else {
            (a, b.push(paths.last()))
        }
    }
}

/// Paths as the tracking file holds them: each on a line of its own.
pub open spec fn lines_text(paths: Seq<Seq<char>>) -> Seq<char> {
    paths.map_values(|p: Seq<char>| p + "\n"@).flatten()
}

/// The repositories of `repos` that the tracking file holds, and those it
/// does not, each without repeats and in the order given.
pub fn split_by_tracking(repos: &Vec<String>, track_file_contents: &str) -> (r: (
    Vec<String>,
    Vec<String>,
))
    ensures
        (r.0.deep_view(), r.1.deep_view()) == split_tracked(
            dedup(repos.deep_view()),
            tracked_paths(track_file_contents@),
        ),
{
    let ds = dedup_paths(repos);
    let ghost ps = ds.deep_view();
    let ghost tr = tracked_paths(track_file_contents@);
    let mut a: Vec<String> = Vec::new();
    let mut b: Vec<String> = Vec::new();
    let mut i: usize = 0;
    while i < ds.len()
        invariant
            ps == ds.deep_view(),
            tr == tracked_paths(track_file_contents@),
            i <= ps.len(),
            (a@.map_values(|s: String| s@), b@.map_values(|s: String| s@)) == split_tracked(
                ps.take(i as int),
                tr,
            ),
        decreases ps.len() - i,
    {
        assert(ps.take(i + 1).drop_last() =~= ps.take(i as int));
        assert(ps.take(i + 1).last() == ds[i as int]@);
        let p = ds[i].clone();
        let ghost pa = a@.map_values(|s: String| s@);
        let ghost pb = b@.map_values(|s: String| s@);
        if repo_is_tracked(p.as_str(), track_file_contents) {
            a.push(p);
            assert(a@.map_values(|s: String| s@) =~= pa.push(p@));
        } else {
            b.push(p);
            assert(b@.map_values(|s: String| s@) =~= pb.push(p@));
        }
        i = i + 1;
    }
    assert(ps.take(i as int) =~= ps);
    assert(a.deep_view() =~= a@.map_values(|s: String| s@));
    assert(b.deep_view() =~= b@.map_values(|s: String| s@));
    (a, b)
}

/// What adding `repos` appends to the tracking file: each repository that it
/// does not hold yet, once, on a line of its own. (The ones it holds already
/// are the first part of `split_by_tracking`.)
pub fn entries_to_add(repos: &Vec<String>, track_file_contents: &str) -> (r: String)
    ensures
        r@ == lines_text(
            split_tracked(dedup(repos.deep_view()), tracked_paths(track_file_contents@)).1,
        ),
{
    let (_, fresh) = split_by_tracking(repos, track_file_contents);
    let ghost fs = fresh.deep_view();
    let ghost f = |p: Seq<char>| p + "\n"@;
    let mut out: Vec<char> = Vec::new();
    let mut i: usize = 0;
    while i < fresh.len()
        invariant
            fs == fresh.deep_view(),
            f == (|p: Seq<char>| p + "\n"@),
            i <= fs.len(),
            out@ == fs.take(i as int).map_values(f).flatten(),
        decreases fs.len() - i,
    {
        push_str(&mut out, fresh[i].as_str());
        push_str(&mut out, "\n");
        proof {
            let prev = fs.take(i as int).map_values(f);
            assert(fs.take(i + 1).map_values(f) =~= prev.push(f(fs[i as int])));
            prev.lemma_flatten_push(f(fs[i as int]));
            assert(out@ =~= fs.take(i + 1).map_values(f).flatten());
        }
        i = i + 1;
    }
    assert(fs.take(i as int) =~= fs);
    string_from(&out)
}

/// The error of a removal that names a repository that is not tracked.
pub open spec fn validation_failed() -> Seq<char> {
    "Repositories validation failed"@
}

/// Every one of `repos` is tracked.
pub open spec fn all_tracked(repos: Seq<Seq<char>>, known: Seq<Seq<char>>) -> bool {
    forall|j: int| 0 <= j < repos.len() ==> known.contains(#[trigger] repos[j])
}

/// A removal of `repos` drops line `l`: its trimmed text is that of one of
/// them.
pub open spec fn drops(l: Seq<char>, repos: Seq<Seq<char>>) -> bool {
    exists|j: int| 0 <= j < repos.len() && trim(#[trigger] repos[j]) == trim(l)
}

/// The lines that a removal of `repos` keeps, in their order.
pub open spec fn kept_lines(ls: Seq<Seq<char>>, repos: Seq<Seq<char>>) -> Seq<Seq<char>>
    decreases ls.len(),
{
    if ls.len() == 0 {
        seq![]
    } else {
        let kept = kept_lines(ls.drop_last(), repos);
        if drops(ls.last(), repos) {
            kept
        } else {
            kept.push(ls.last())
        }
    }
}

/// Lines joined by line feeds, with none after the last.
pub open spec fn joined(ls: Seq<Seq<char>>) -> Seq<char>
    decreases ls.len(),
{
    if ls.len() == 0 {
        seq![]
    } else if ls.len() == 1 {
        ls[0]
    } else {
        joined(ls.drop_last()) + "\n"@ + ls.last()
    }
}

fn line_dropped(cs: &Vec<char>, a: usize, b: usize, repos: &Vec<String>) -> (r: bool)
    requires
        a <= b <= cs@.len(),
    ensures
        r == drops(cs@.subrange(a as int, b as int), repos.deep_view()),
{
    let ghost rs = repos.deep_view();
    let (x, y) = trim_bounds(cs, a, b);
    let mut j: usize = 0;
    while j < repos.len()
        invariant
            rs == repos.deep_view(),
            a <= x <= y <= b <= cs@.len(),
            cs@.subrange(x as int, y as int) == trim(cs@.subrange(a as int, b as int)),
            j <= rs.len(),
            forall|t: int| 0 <= t < j ==> trim(#[trigger] rs[t]) != trim(
                cs@.subrange(a as int, b as int),
            ),
        decreases rs.len() - j,
    {
        let rc = chars_of(repos[j].as_str());
        let (u, v) = trim_bounds(&rc, 0, rc.len());
        assert(rc@.subrange(0, rc@.len() as int) =~= rc@);
        if ranges_equal(cs, x, y, &rc, u, v) {
            assert(trim(rs[j as int]) == trim(cs@.subrange(a as int, b as int)));
            return true;
        }
        j = j + 1;
    }
    false
}

/// The tracking file after `repos` are removed from it: every line whose
/// trimmed text is that of one of them goes, and the lines that stay are
/// joined by line feeds, with none after the last. An error where nothing is
/// tracked, or where one of `repos` is not tracked (see `split_by_tracking`).
pub fn remove_repos(repos: &Vec<String>, tracking_file: &TrackingFile) -> (r: Result<
    String,
    String,
>)
    ensures
        match r {
            Ok(s) => tracking_file.contents@.len() > 0 && all_tracked(
                repos.deep_view(),
                tracked_paths(tracking_file.contents@),
            ) && s@ == joined(kept_lines(tracked_paths(tracking_file.contents@), repos.deep_view())),
            Err(e) => (tracking_file.contents@.len() == 0 && e@ == nothing_tracked()) || (
            tracking_file.contents@.len() > 0 && !all_tracked(
                repos.deep_view(),
                tracked_paths(tracking_file.contents@),
            ) && e@ == validation_failed()),
        },
{
    let contents = tracking_file.contents.as_str();
    if contents.is_empty() {
        return Err(nothing_tracked_error());
    }
    let ghost rs = repos.deep_view();
    let ghost tr = tracked_paths(contents@);
    let mut j: usize = 0;
    while j < repos.len()
        invariant
            rs == repos.deep_view(),
            tr == tracked_paths(contents@),
            contents@ == tracking_file.contents@,
            contents@.len() > 0,
            j <= rs.len(),
            forall|t: int| 0 <= t < j ==> tr.contains(#[trigger] rs[t]),
        decreases rs.len() - j,
    {
        if !repo_is_tracked(repos[j].as_str(), contents) {
            assert(!tr.contains(rs[j as int]));
            assert(!all_tracked(rs, tr));
            return Err("Repositories validation failed".to_owned());
        }
        j = j + 1;
    }
    let cs = chars_of(contents);
    let spans = line_spans(&cs);
    let ghost ls = lines(cs@);
    let mut out: Vec<char> = Vec::new();
    let mut any_kept = false;
    let mut k: usize = 0;
    while k < spans.len()
        invariant
            rs == repos.deep_view(),
            any_kept == (kept_lines(ls.take(k as int), rs).len() > 0),
            cs@ == contents@,
            contents@ == tracking_file.contents@,
            contents@.len() > 0,
            all_tracked(rs, tracked_paths(contents@)),
            ls == lines(cs@),
            span_texts(cs@, spans@) == ls,
            spans_within(spans@, cs@.len() as int),
            k <= spans@.len(),
            out@ == joined(kept_lines(ls.take(k as int), rs)),
        decreases spans@.len() - k,
    {
        let (a, b) = spans[k];
        assert(ls[k as int] == cs@.subrange(a as int, b as int));
        assert(ls.take(k + 1).drop_last() =~= ls.take(k as int));
        assert(ls.take(k + 1).last() == ls[k as int]);
        let ghost kept = kept_lines(ls.take(k as int), rs);
        if !line_dropped(&cs, a, b, repos) {
            let ghost prev = out@;
            let ghost more = kept.push(ls[k as int]);
            assert(more.drop_last() =~= kept);
            if any_kept {
                push_str(&mut out, "\n");
                push_range(&mut out, &cs, a, b);
                assert(out@ =~= prev + "\n"@ + ls[k as int]);
            } else {
                push_range(&mut out, &cs, a, b);
                assert(out@ =~= ls[k as int]);
            }
            any_kept = true;
        }
        k = k + 1;
    }
    assert(ls.take(k as int) =~= ls);
    Ok(string_from(&out))
}

/// Whether the tracking file may be removed to stop tracking every
/// repository: not where nothing is tracked.
pub fn remove_all(tracking_file: &TrackingFile) -> (r: Result<(), String>)
    ensures
        match r {
            Ok(()) => tracking_file.contents@.len() > 0,
            Err(e) => tracking_file.contents@.len() == 0 && e@ == nothing_tracked(),
        },
{
    if tracking_file.contents.as_str().is_empty() {
        return Err(nothing_tracked_error());
    }
    Ok(())
}

// ---------------------------------------------------------------------------
// Looking a repository up by name
// ---------------------------------------------------------------------------

/// A path without what ends it but names nothing: separators at its end, and
/// a `.` component at its end.
pub open spec fn trim_path_end(p: Seq<char>) -> Seq<char>
    decreases p.len(),
{
    if p.len() > 0 && (p.last() == '/' || (p.last() == '.' && (p.len() == 1 || p[p.len() - 2]
        == '/'))) {
        trim_path_end(p.drop_last())
    } else {
        p
    }
}

/// The characters after the last separator of `p`.
pub open spec fn last_segment(p: Seq<char>) -> Seq<char>
    decreases p.len(),
{
    if p.len() == 0 || p.last() == '/' {
        seq![]
    } else {
        last_segment(p.drop_last()).push(p.last())
    }
}

/// The name of the last component of a path, as `Path::file_name` gives it:
/// none where the path ends in `..`, or has no component but the root or the
/// current directory.
pub open spec fn file_name(p: Seq<char>) -> Option<Seq<char>> {
    let s = last_segment(trim_path_end(p));
    if s.len() == 0 || s == seq!['.', '.'] {
        None
    } else {
        Some(s)
    }
}

/// Where the file name of `cs` stands in it.
pub fn file_name_bounds(cs: &Vec<char>) -> (r: Option<(usize, usize)>)
    ensures
        match r {
            Some((a, b)) => a <= b <= cs@.len() && file_name(cs@) == Some(
                cs@.subrange(a as int, b as int),
            ),
            None => file_name(cs@) is None,
        },
{
    let mut e: usize = cs.len();
    assert(cs@.take(e as int) =~= cs@);
    while e > 0 && (cs[e - 1] == '/' || (cs[e - 1] == '.' && (e == 1 || cs[e - 2] == '/')))
        invariant
            e <= cs@.len(),
            trim_path_end(cs@) == trim_path_end(cs@.take(e as int)),
        decreases e,
    {
        assert(cs@.take(e as int).drop_last() =~= cs@.take(e - 1));
        e = e - 1;
    }
    let ghost t = cs@.take(e as int);
    assert(trim_path_end(t) == t);
    let mut b: usize = e;
    assert(t.subrange(b as int, e as int) =~= Seq::<char>::empty());
    assert(t.take(b as int) =~= t);
    while b > 0 && cs[b - 1] != '/'
        invariant
            b <= e <= cs@.len(),
            t == cs@.take(e as int),
            last_segment(t) == last_segment(cs@.take(b as int)) + cs@.subrange(b as int, e as int),
        decreases b,
    {
        let ghost p = cs@.take(b as int);
        assert(p.drop_last() =~= cs@.take(b - 1));
        assert(cs@.subrange(b - 1, e as int) =~= seq![cs@[b - 1]] + cs@.subrange(b as int, e as int));
        assert(last_segment(p) == last_segment(cs@.take(b - 1)).push(cs@[b - 1]));
        assert(last_segment(cs@.take(b - 1)).push(cs@[b - 1]) + cs@.subrange(b as int, e as int)
            =~= last_segment(cs@.take(b - 1)) + cs@.subrange(b - 1, e as int));
        b = b - 1;
    }
    assert(last_segment(cs@.take(b as int)) =~= Seq::<char>::empty());
    let ghost seg = cs@.subrange(b as int, e as int);
    assert(last_segment(t) =~= seg);
    if e == b {
        return None;
    }
    if e - b == 2 && cs[b] == '.' && cs[b + 1] == '.' {
        assert(seg =~= seq!['.', '.']);
        return None;
    }
    assert(seg != seq!['.', '.']) by {
        if seg.len() == 2 {
            assert(seg[0] == cs@[b as int]);
            assert(seg[1] == cs@[b + 1]);
        }
    }
    Some((b, e))
}

/// The first of the first `n` paths whose file name is `name`.
pub open spec fn first_named(ls: Seq<Seq<char>>, name: Seq<char>, n: int) -> Option<int>
    decreases n,
{
    if n <= 0 {
        None
    } else {
        match first_named(ls, name, n - 1) {
            Some(i) => Some(i),
            None => if file_name(ls[n - 1]) == Some(name) {
                Some(n - 1)
            } else {
                None
            },
        }
    }
}

proof fn lemma_first_named_stays(ls: Seq<Seq<char>>, name: Seq<char>, n: int, m: int)
    requires
        0 <= n <= m,
        first_named(ls, name, n) is Some,
    ensures
        first_named(ls, name, m) == first_named(ls, name, n),
    decreases m - n,
{
    if m > n {
        lemma_first_named_stays(ls, name, n, m - 1);
    }
}

/// The error of a lookup that finds no tracked repository of that name.
pub open spec fn not_found(name: Seq<char>) -> Seq<char> {
    "Repository '"@ + name + "' not found in tracking file"@
}

/// The path of the first tracked repository whose directory is named
/// `repo_name`.
pub fn cd_to_repo(repo_name: &str, tracking_file: &TrackingFile) -> (r: Result<String, String>)
    ensures
        match r {
            Ok(s) => tracking_file.contents@.len() > 0 && ({
                let ls = tracked_paths(tracking_file.contents@);
                &&& first_named(ls, repo_name@, ls.len() as int) is Some
                &&& s@ == ls[first_named(ls, repo_name@, ls.len() as int)->0]
            }),
            Err(e) => (tracking_file.contents@.len() == 0 && e@ == nothing_tracked()) || (
            tracking_file.contents@.len() > 0 && ({
                let ls = tracked_paths(tracking_file.contents@);
                &&& first_named(ls, repo_name@, ls.len() as int) is None
                &&& e@ == not_found(repo_name@)
            })),
        },
{
    let contents = tracking_file.contents.as_str();
    if contents.is_empty() {
        return Err(nothing_tracked_error());
    }
    let cs = chars_of(contents);
    let nc = chars_of(repo_name);
    assert(nc@.subrange(0, nc@.len() as int) =~= nc@);
    let spans = line_spans(&cs);
    let ghost ls = lines(cs@);
    let mut k: usize = 0;
    while k < spans.len()
        invariant
            cs@ == contents@,
            contents@ == tracking_file.contents@,
            nc@ == repo_name@,
            nc@.subrange(0, nc@.len() as int) == nc@,
            ls == lines(cs@),
            span_texts(cs@, spans@) == ls,
            spans_within(spans@, cs@.len() as int),
            k <= spans@.len(),
            first_named(ls, repo_name@, k as int) is None,
        decreases spans@.len() - k,
    {
        let (a, b) = spans[k];
        assert(ls[k as int] == cs@.subrange(a as int, b as int));
        let line = string_of_range(&cs, a, b);
        let lc = chars_of(line.as_str());
        match file_name_bounds(&lc) {
            Some((x, y)) => {
                if ranges_equal(&lc, x, y, &nc, 0, nc.len()) {
                    assert(first_named(ls, repo_name@, k + 1) == Some(k as int));
                    proof {
                        lemma_first_named_stays(ls, repo_name@, k + 1, ls.len() as int);
                    }
                    return Ok(line);
                }
            },
            None => {},
        }
        k = k + 1;
    }
    let mut msg: Vec<char> = Vec::new();
    push_str(&mut msg, "Repository '");
    push_str(&mut msg, repo_name);
    push_str(&mut msg, "' not found in tracking file");
    Err(string_from(&msg))
}

} // verus!

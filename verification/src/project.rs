//! Which project a keypress was about.
//!
//! The answer comes from Herdr's session model, never from the inherited cwd: a popup's cwd has no
//! defined relationship to what the user was looking at.

use vstd::prelude::*;
use vstd::string::*;

use crate::herdr::Snapshot;
use crate::manifest::{LoadError, Project};
use crate::paths::{ancestors_spec, join, join_spec, parent};
use crate::text::{opt_view, views};

verus! {

pub const MANIFEST_NAME: &'static str = ".herdr-dev.toml";

/// Where a manifest for a directory could be: in it, then in each directory above it, innermost
/// first.
pub open spec fn candidates_spec(start: Seq<char>) -> Seq<Seq<char>> {
    ancestors_spec(start).map_values(|dir: Seq<char>| join_spec(dir, MANIFEST_NAME@))
}

/// The manifests that would answer for `start`, innermost first: the first of them that is a file
/// is the nearest.
pub fn candidates(start: &str) -> (r: Vec<String>)
    ensures
        views(r@) == candidates_spec(start@),
{
    let ghost target = candidates_spec(start@);
    let mut r: Vec<String> = Vec::new();
    let mut cur = String::from_str(start);
    loop
        invariant_except_break
            views(r@) + candidates_spec(cur@) == target,
        ensures
            views(r@) == target,
        decreases cur@.len(),
    {
        let ghost before = r@;
        let here = join(cur.as_str(), MANIFEST_NAME);
        r.push(here);
        assert(views(r@) =~= views(before).push(here@));
        match parent(cur.as_str()) {
            None => {
                assert(candidates_spec(cur@) =~= seq![here@]);
                assert(views(r@) =~= views(before) + candidates_spec(cur@));
                break;
            },
            Some(q) => {
                proof {
                    lemma_candidates_step(cur@, q@);
                }
                assert(views(r@) + candidates_spec(q@) =~= views(before) + candidates_spec(cur@));
                cur = q;
            },
        }
    }
    r
}

proof fn lemma_candidates_step(path: Seq<char>, q: Seq<char>)
    requires
        crate::paths::parent_spec(path) == Some(q),
    ensures
        candidates_spec(path) == seq![join_spec(path, MANIFEST_NAME@)] + candidates_spec(q),
        q.len() < path.len(),
{
    assert(ancestors_spec(path) == seq![path] + ancestors_spec(q));
    assert(candidates_spec(path) =~= seq![join_spec(path, MANIFEST_NAME@)] + candidates_spec(q));
    crate::paths::lemma_parent_shorter(path);
}

/// Every manifest that would answer for any of `starts`, in the order they are tried: each start's
/// own candidates, innermost first, before the next start's.
pub open spec fn all_candidates_spec(starts: Seq<Seq<char>>) -> Seq<Seq<char>>
    decreases starts.len(),
{
    if starts.len() == 0 {
        Seq::empty()
    } else {
        all_candidates_spec(starts.drop_last()) + candidates_spec(starts.last())
    }
}

pub fn all_candidates(starts: &Vec<String>) -> (r: Vec<String>)
    ensures
        views(r@) == all_candidates_spec(views(starts@)),
{
    let mut r: Vec<String> = Vec::new();
    let mut i: usize = 0;
    while i < starts.len()
        invariant
            i <= starts@.len(),
            views(r@) == all_candidates_spec(views(starts@.subrange(0, i as int))),
        decreases starts.len() - i,
    {
        let ghost before = views(r@);
        let mut more = candidates(starts[i].as_str());
        let ghost tail = views(more@);
        r.append(&mut more);
        assert(views(r@) =~= before + tail);
        assert(views(starts@.subrange(0, i as int + 1)).drop_last() =~= views(starts@.subrange(0, i as int)));
        i += 1;
    }
    assert(starts@.subrange(0, starts@.len() as int) =~= starts@);
    r
}

/// The first place whose answer says a manifest is there; an answer missing counts as no.
pub open spec fn first_present(present: Seq<bool>, n: int) -> Option<int>
    decreases n,
{
    if n <= 0 {
        None
    } else {
        match first_present(present, n - 1) {
            Some(i) => Some(i),
            None => if n - 1 < present.len() && present[n - 1] {
                Some(n - 1)
            } else {
                None
            },
        }
    }
}

proof fn lemma_first_present(present: Seq<bool>, n: int, i: int)
    requires
        0 <= i <= n,
        forall|j: int| 0 <= j < i ==> !(j < present.len() && #[trigger] present[j]),
        i < n ==> i < present.len() && present[i],
    ensures
        first_present(present, n) == if i < n {
            Some(i)
        } else {
            None::<int>
        },
    decreases n,
{
    if n > 0 {
        if i < n {
            if i < n - 1 {
                lemma_first_present(present, n - 1, i);
            } else {
                lemma_first_present(present, n - 1, n - 1);
            }
        } else {
            lemma_first_present(present, n - 1, n - 1);
        }
    }
}

pub proof fn lemma_first_present_bound(present: Seq<bool>, n: int)
    ensures
        first_present(present, n) matches Some(i) ==> 0 <= i < n && i < present.len(),
    decreases n,
{
    if n > 0 {
        lemma_first_present_bound(present, n - 1);
    }
}

/// The nearest manifest: the first candidate that `present` says is a file.
pub fn nearest_manifest(candidates: &Vec<String>, present: &Vec<bool>) -> (r: Option<String>)
    ensures
        opt_view(r) == match first_present(present@, candidates@.len() as int) {
            Some(i) => Some(candidates@[i]@),
            None => None,
        },
{
    let mut i: usize = 0;
    while i < candidates.len()
        invariant
            i <= candidates@.len(),
            forall|j: int| 0 <= j < i ==> !(j < present@.len() && #[trigger] present@[j]),
        decreases candidates.len() - i,
    {
        if i < present.len() && present[i] {
            proof {
                lemma_first_present(present@, candidates@.len() as int, i as int);
            }
            return Some(candidates[i].clone());
        }
        i += 1;
    }
    proof {
        lemma_first_present(present@, candidates@.len() as int, candidates@.len() as int);
    }
    None
}

/// The manifest a keypress is about: the nearest one above the first start that has one, where
/// `present` answers for each of the starts' candidates in turn.
pub fn locate(starts: &Vec<String>, present: &Vec<bool>) -> (r: Option<String>)
    ensures
        opt_view(r) == match first_present(present@, all_candidates_spec(views(starts@)).len() as int) {
            Some(i) => Some(all_candidates_spec(views(starts@))[i]),
            None => None,
        },
{
    let candidates = all_candidates(starts);
    let r = nearest_manifest(&candidates, present);
    proof {
        lemma_first_present_bound(present@, candidates@.len() as int);
        assert(views(candidates@).len() == candidates@.len());
        match first_present(present@, candidates@.len() as int) {
            Some(i) => assert(views(candidates@)[i] == candidates@[i]@),
            None => {},
        }
    }
    r
}

/// Where a keypress is looked for, in order: the focused pane's directory, then the focused
/// workspace's.
pub open spec fn starts_spec(snapshot: Snapshot, home: Seq<char>) -> Seq<Seq<char>> {
    let pane = match snapshot.focused_pane_cwd_spec(home) {
        Some(d) => seq![d],
        None => Seq::empty(),
    };
    pane + snapshot.focused_workspace_cwds_spec(home)
}

pub fn starts(snapshot: &Snapshot, home: &str) -> (r: Vec<String>)
    ensures
        views(r@) == starts_spec(*snapshot, home@),
{
    let mut r: Vec<String> = Vec::new();
    match snapshot.focused_pane_cwd(home) {
        Some(d) => r.push(d),
        None => {},
    }
    let ghost lead = views(r@);
    let mut rest = snapshot.focused_workspace_cwds(home);
    let ghost tail = views(rest@);
    r.append(&mut rest);
    assert(views(r@) =~= lead + tail);
    r
}

/// Everything the first frame needs: the project if one was found, and one line of complaint if
/// anything went wrong along the way.
#[derive(Debug)]
pub struct Resolution {
    pub project: Option<Project>,
    pub complaint: Option<String>,
}

impl Resolution {
    /// Nothing found, and nothing to complain of.
    pub fn nothing() -> (r: Resolution)
        ensures
            r.project is None,
            r.complaint is None,
    {
        Resolution { project: None, complaint: None }
    }

    /// What came of looking: no manifest, one that loaded, or one that did not, whose error is the
    /// complaint.
    pub fn of(found: Option<Result<Project, LoadError>>) -> (r: Resolution)
        ensures
            match found {
                None => r.project is None && r.complaint is None,
                Some(Ok(p)) => r.project == Some(p) && r.complaint is None,
                Some(Err(e)) => r.project is None && opt_view(r.complaint) == Some(e.path_spec() + ": "@ + e.whole_spec()),
            },
    {
        match found {
            None => Resolution::nothing(),
            Some(Ok(project)) => Resolution { project: Some(project), complaint: None },
            Some(Err(error)) => Resolution { project: None, complaint: Some(error.message()) },
        }
    }
}

} // verus!

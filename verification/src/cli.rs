//! The agent-facing surface: what a call names before its verb, which manifests it lists, and which
//! unit a selector reaches.

use vstd::prelude::*;
use vstd::string::*;

use crate::client::Endpoint;
use crate::manifest::{DockerService, LocalUnit, Project};
use crate::state::{root, root_spec};
use crate::store::{Identity, Store};
use crate::text::{find_char, first_index, joined, str_eq, views};
use crate::json::{bool_spec, get, get_spec, insert, keys_of, member, str_spec, text, triple, u64_spec, Json, Num};
use crate::store::{project_key_spec, slot_dir, unit_file};
use crate::text::opt_view;
use crate::unit::{key_spec, State, Status};
use crate::view::{Included, View};
use vstd::view::View as ModelOf;

verus! {

/// Where the manifest is, and which state root to reach the daemon through.
#[derive(Debug, Clone, Default, PartialEq, Eq)]
pub struct Ask {
    pub project: Option<String>,
    pub state: Option<String>,
}

/// The three verbs.
#[derive(Debug, Clone, Copy, PartialEq, Eq)]
pub enum Act {
    Start,
    Stop,
    Restart,
}

impl Act {
    pub open spec fn label_spec(self) -> Seq<char> {
        match self {
            Act::Start => "start"@,
            Act::Stop => "stop"@,
            Act::Restart => "restart"@,
        }
    }

    pub fn label(self) -> (r: &'static str)
        ensures
            r@ == self.label_spec(),
    {
        match self {
            Act::Start => "start",
            Act::Stop => "stop",
            Act::Restart => "restart",
        }
    }
}


impl Ask {
    /// The daemon this call reaches: the one at the named state root, else the spelled-out one.
    pub fn endpoint(&self, home: &str) -> (r: Endpoint)
        ensures
            r.root_spec() == match self.state {
                Some(dir) => dir@,
                None => root_spec(home@),
            },
    {
        match &self.state {
            Some(dir) => Endpoint::at(dir.clone()),
            None => Endpoint::spelled_out(home),
        }
    }

    /// The store this call reads: at the named state root, else at the spelled-out one.
    pub fn store(&self, home: &str) -> (r: Store)
        ensures
            r.root_spec() == match self.state {
                Some(dir) => dir@,
                None => root_spec(home@),
            },
    {
        match &self.state {
            Some(dir) => Store::at(dir.clone()),
            None => Store::at(root(home)),
        }
    }
}

/// A project's identity as its own record spells it.
pub fn identity(project: &Project) -> (r: Identity)
    ensures
        r.path@ == project.root@,
        r.name@ == project.name@,
{
    Identity { path: project.root.clone(), name: project.name.clone() }
}

/// What a selector matched: which listed manifest, and the unit's kind and name.
#[derive(Debug, Clone, PartialEq, Eq)]
pub struct Found {
    pub at: usize,
    pub kind: &'static str,
    pub name: String,
}

/// A selector split at its first colon into a repo and a unit.
pub open spec fn selector_parts(selector: Seq<char>) -> (Option<Seq<char>>, Seq<char>) {
    match first_index(selector, ':') {
        Some(i) => (Some(selector.take(i)), selector.skip(i + 1)),
        None => (None, selector),
    }
}

/// Every unit of a manifest a selector may name, services first.
pub open spec fn candidates_spec(project: Project) -> Seq<(Seq<char>, Seq<char>)> {
    project.docker@.map_values(|s: DockerService| ("docker"@, s.name@)) + project.local@.map_values(
        |u: LocalUnit| ("local"@, u.name@),
    )
}

/// `rails` and `local-rails` both reach the local unit `rails`.
pub open spec fn names_spec(kind: Seq<char>, name: Seq<char>, unit: Seq<char>) -> bool {
    name == unit || key_spec(kind, name) == unit
}

/// What a unit matched within one manifest, tagged with where that manifest was listed.
pub open spec fn matched_in(cands: Seq<(Seq<char>, Seq<char>)>, at: int, unit: Seq<char>) -> Seq<(int, Seq<char>, Seq<char>)>
    decreases cands.len(),
{
    if cands.len() == 0 {
        Seq::empty()
    } else {
        let before = matched_in(cands.drop_last(), at, unit);
        let (kind, name) = cands.last();
        if names_spec(kind, name, unit) {
            before.push((at, kind, name))
        } else {
            before
        }
    }
}

/// Everything a selector matched across the listed manifests, in listed order.
pub open spec fn matched(listed: Seq<(Option<String>, &Project)>, repo: Option<Seq<char>>, unit: Seq<char>) -> Seq<(int, Seq<char>, Seq<char>)>
    decreases listed.len(),
{
    if listed.len() == 0 {
        Seq::empty()
    } else {
        let k = listed.len() - 1;
        let here = match (repo, listed[k].0) {
            (None, _) => matched_in(candidates_spec(*listed[k].1), k, unit),
            (Some(r), Some(n)) if n@ == r => matched_in(candidates_spec(*listed[k].1), k, unit),
            _ => Seq::empty(),
        };
        matched(listed.drop_last(), repo, unit) + here
    }
}

/// How a match is spelled when a bare name was ambiguous: its key, after its repo when it has one.
pub open spec fn qualified_spec(listed: Seq<(Option<String>, &Project)>, m: (int, Seq<char>, Seq<char>)) -> Seq<char> {
    match listed[m.0].0 {
        Some(repo) => repo@ + seq![':'] + key_spec(m.1, m.2),
        None => key_spec(m.1, m.2),
    }
}

pub open spec fn qualified_all(listed: Seq<(Option<String>, &Project)>, ms: Seq<(int, Seq<char>, Seq<char>)>) -> Seq<Seq<char>> {
    ms.map_values(|m: (int, Seq<char>, Seq<char>)| qualified_spec(listed, m))
}

fn push_matches(
    project: &Project,
    at: usize,
    unit: &str,
    found: &mut Vec<Found>,
)
    ensures
        found_view(final(found)@) == found_view(old(found)@) + matched_in(candidates_spec(*project), at as int, unit@),
{
    proof {
        reveal_strlit("docker");
        reveal_strlit("local");
    }
    let ghost start = found_view(found@);
    let ghost cands = candidates_spec(*project);
    let mut i: usize = 0;
    while i < project.docker.len()
        invariant
            i <= project.docker@.len(),
            cands == candidates_spec(*project),
            found_view(found@) == start + matched_in(cands.subrange(0, i as int), at as int, unit@),
        decreases project.docker.len() - i,
    {
        let name = &project.docker[i].name;
        assert(cands.subrange(0, i as int + 1).drop_last() =~= cands.subrange(0, i as int));
        assert(cands.subrange(0, i as int + 1).last() == ("docker"@, name@));
        let key = crate::unit::key(crate::unit::DOCKER, name.as_str());
        if str_eq(name.as_str(), unit) || str_eq(key.as_str(), unit) {
            let ghost before = found@;
            found.push(Found { at, kind: crate::unit::DOCKER, name: name.clone() });
            assert(found_view(found@) =~= found_view(before).push((at as int, "docker"@, name@)));
        }
        i += 1;
    }
    let d = project.docker.len();
    let mut k: usize = 0;
    while k < project.local.len()
        invariant
            k <= project.local@.len(),
            d == project.docker@.len(),
            cands == candidates_spec(*project),
            found_view(found@) == start + matched_in(cands.subrange(0, d + k), at as int, unit@),
        decreases project.local.len() - k,
    {
        let name = &project.local[k].name;
        assert(cands.subrange(0, (d + k + 1) as int).drop_last() =~= cands.subrange(0, (d + k) as int));
        assert(cands.subrange(0, (d + k + 1) as int).last() == ("local"@, name@));
        let key = crate::unit::key(crate::unit::LOCAL, name.as_str());
        if str_eq(name.as_str(), unit) || str_eq(key.as_str(), unit) {
            let ghost before = found@;
            found.push(Found { at, kind: crate::unit::LOCAL, name: name.clone() });
            assert(found_view(found@) =~= found_view(before).push((at as int, "local"@, name@)));
        }
        k += 1;
    }
    assert(cands.subrange(0, (d + project.local@.len()) as int) =~= cands);
}

pub open spec fn found_view(v: Seq<Found>) -> Seq<(int, Seq<char>, Seq<char>)> {
    v.map_values(|f: Found| (f.at as int, f.kind@, f.name@))
}

/// The unit a selector reaches among the listed manifests: `rails`, `local-rails` and
/// `player_server:rails` all do. None is a refusal; more than one is one too, naming each in the
/// spelling that would have been unambiguous.
pub fn pick(listed: &Vec<(Option<String>, &Project)>, selector: &str) -> (r: Result<Found, String>)
    ensures
        ({
            let (repo, unit) = selector_parts(selector@);
            let ms = matched(listed@, repo, unit);
            &&& ms.len() == 1 ==> (r matches Ok(f) && (f.at as int, f.kind@, f.name@) == ms[0])
            &&& ms.len() == 0 ==> (r matches Err(e) && e@ == "no unit `"@ + selector@ + "` in this project"@)
            &&& ms.len() > 1 ==> (r matches Err(e) && e@ == "`"@ + selector@ + "` is ambiguous: "@ + joined(qualified_all(listed@, ms), ", "@))
        }),
{
    let chars = crate::text::chars_of(selector);
    let colon = find_char(&chars, 0, chars.len(), ':');
    proof {
        match colon {
            Some(c) => crate::text::lemma_first_index(selector@, ':', c as int),
            None => crate::text::lemma_first_index(selector@, ':', selector@.len() as int),
        }
    }
    let (repo, unit): (Option<String>, String) = match colon {
        Some(c) => {
            let r = crate::text::string_of(&chars.as_slice()[0..c]);
            let u = crate::text::string_of(&chars.as_slice()[c + 1..chars.len()]);
            assert(r@ =~= selector@.take(c as int));
            assert(u@ =~= selector@.skip(c + 1));
            (Some(r), u)
        },
        None => (None, String::from_str(selector)),
    };
    let ghost rv: Option<Seq<char>> = match &repo {
        Some(r) => Some(r@),
        None => None,
    };
    assert((rv, unit@) == selector_parts(selector@));
    let mut found: Vec<Found> = Vec::new();
    let mut i: usize = 0;
    while i < listed.len()
        invariant
            i <= listed@.len(),
            found_view(found@) == matched(listed@.subrange(0, i as int), rv, unit@),
            rv == match &repo {
                Some(r) => Some(r@),
                None => None::<Seq<char>>,
            },
        decreases listed.len() - i,
    {
        let ghost pre = listed@.subrange(0, i as int + 1);
        assert(pre.drop_last() =~= listed@.subrange(0, i as int));
        assert(pre[i as int] == listed@[i as int]);
        let take = match (&repo, &listed[i].0) {
            (None, _) => true,
            (Some(r), Some(n)) => str_eq(n.as_str(), r.as_str()),
            _ => false,
        };
        if take {
            push_matches(listed[i].1, i, unit.as_str(), &mut found);
        } else {
            assert(found_view(found@) =~= found_view(found@) + Seq::<(int, Seq<char>, Seq<char>)>::empty());
        }
        i += 1;
    }
    assert(listed@.subrange(0, listed@.len() as int) =~= listed@);
    if found.len() == 1 {
        let f = Found { at: found[0].at, kind: found[0].kind, name: found[0].name.clone() };
        return Ok(f);
    }
    if found.len() == 0 {
        let mut e = String::from_str("no unit `");
        e.append(selector);
        e.append("` in this project");
        return Err(e);
    }
    proof {
        lemma_matched_bounds(listed@, rv, unit@);
        assert forall|j: int| 0 <= j < found@.len() implies #[trigger] found@[j].at < listed@.len() by {
            assert(found_view(found@)[j].0 == found@[j].at as int);
        }
    }
    let mut spelled: Vec<String> = Vec::new();
    let mut k: usize = 0;
    while k < found.len()
        invariant
            k <= found@.len(),
            found_view(found@) == matched(listed@, rv, unit@),
            views(spelled@) == qualified_all(listed@, found_view(found@).subrange(0, k as int)),
            forall|j: int| 0 <= j < found@.len() ==> #[trigger] found@[j].at < listed@.len(),
        decreases found.len() - k,
    {
        let f = &found[k];
        let key = crate::unit::key(f.kind, f.name.as_str());
        assert(found_view(found@)[k as int] == (f.at as int, f.kind@, f.name@));
        let q = match &listed[f.at].0 {
            Some(repo_name) => {
                let mut q = repo_name.clone();
                crate::text::push_char(&mut q, ':');
                q.append(key.as_str());
                assert(q@ =~= repo_name@ + seq![':'] + key@);
                q
            },
            None => key,
        };
        assert(q@ == qualified_spec(listed@, found_view(found@)[k as int]));
        let ghost before = spelled@;
        spelled.push(q);
        assert(views(spelled@) =~= views(before).push(q@));
        assert(qualified_all(listed@, found_view(found@).subrange(0, k as int + 1)) =~= qualified_all(listed@, found_view(found@).subrange(0, k as int)).push(qualified_spec(listed@, found_view(found@)[k as int])));
        k += 1;
    }
    assert(found_view(found@).subrange(0, found@.len() as int) =~= found_view(found@));
    let mut e = String::from_str("`");
    e.append(selector);
    e.append("` is ambiguous: ");
    let listing = crate::text::join_words(&spelled, ", ");
    e.append(listing.as_str());
    Err(e)
}


proof fn lemma_matched_in_bounds(cands: Seq<(Seq<char>, Seq<char>)>, at: int, unit: Seq<char>)
    ensures
        forall|j: int| 0 <= j < matched_in(cands, at, unit).len() ==> #[trigger] matched_in(cands, at, unit)[j].0 == at,
    decreases cands.len(),
{
    if cands.len() > 0 {
        lemma_matched_in_bounds(cands.drop_last(), at, unit);
        let before = matched_in(cands.drop_last(), at, unit);
        let all = matched_in(cands, at, unit);
        assert forall|j: int| 0 <= j < all.len() implies #[trigger] all[j].0 == at by {
            if j < before.len() {
                assert(all[j] == before[j]);
            }
        }
    }
}

proof fn lemma_matched_bounds(listed: Seq<(Option<String>, &Project)>, repo: Option<Seq<char>>, unit: Seq<char>)
    ensures
        forall|j: int| 0 <= j < matched(listed, repo, unit).len() ==> 0 <= #[trigger] matched(listed, repo, unit)[j].0 < listed.len(),
    decreases listed.len(),
{
    if listed.len() > 0 {
        let k = listed.len() - 1;
        lemma_matched_bounds(listed.drop_last(), repo, unit);
        lemma_matched_in_bounds(candidates_spec(*listed[k].1), k, unit);
        let before = matched(listed.drop_last(), repo, unit);
        let all = matched(listed, repo, unit);
        assert forall|j: int| 0 <= j < all.len() implies 0 <= #[trigger] all[j].0 < listed.len() by {
            if j < before.len() {
                assert(all[j] == before[j]);
            }
        }
    }
}


/// The status fields are untouched by a member of another name.
proof fn lemma_status_unmoved(a: Json, b: Json)
    requires
        get_spec(a, "state"@) == get_spec(b, "state"@),
        get_spec(a, "uptime_ms"@) == get_spec(b, "uptime_ms"@),
        get_spec(a, "exit_code"@) == get_spec(b, "exit_code"@),
        get_spec(a, "signal"@) == get_spec(b, "signal"@),
        get_spec(a, "held_by"@) == get_spec(b, "held_by"@),
        get_spec(a, "note"@) == get_spec(b, "note"@),
    ensures
        Status::read_spec(a) == Status::read_spec(b),
{
}

/// What a JSON document says under `key`, as text.
pub open spec fn said(value: Json, key: Seq<char>) -> Option<Seq<char>> {
    str_spec(get_spec(value, key))
}

/// One unit as the agent reads it: its status, where nothing has run it `down`, always a list of
/// ports, and its key, kind, name and project, and the repo it came from when it was included.
pub open spec fn spelled_ok(r: Json, status: Status, key: Seq<char>, kind: Seq<char>, name: Seq<char>, repo: Option<Seq<char>>, root: Seq<char>) -> bool {
    &&& r is Object
    &&& Status::read_spec(r) == Ok::<Status, Seq<char>>(status)
    &&& (get_spec(r, "ports"@) matches Some(Json::Array(items)) && items@.len() == 0)
    &&& said(r, "unit"@) == Some(key)
    &&& said(r, "kind"@) == Some(kind)
    &&& said(r, "name"@) == Some(name)
    &&& said(r, "project"@) == Some(root)
    &&& said(r, "repo"@) == repo
}

/// The names the agent's documents use, told apart.
pub proof fn lemma_document_names_differ()
    ensures
        "state"@ != "uptime_ms"@,
        "state"@ != "exit_code"@,
        "state"@ != "signal"@,
        "state"@ != "held_by"@,
        "state"@ != "note"@,
        "state"@ != "ports"@,
        "state"@ != "unit"@,
        "state"@ != "kind"@,
        "state"@ != "name"@,
        "state"@ != "project"@,
        "state"@ != "repo"@,
        "state"@ != "one_shot"@,
        "state"@ != "manifest_note"@,
        "state"@ != "cmd"@,
        "state"@ != "cwd"@,
        "state"@ != "log"@,
        "state"@ != "pid"@,
        "state"@ != "error"@,
        "state"@ != "daemon"@,
        "state"@ != "units"@,
        "state"@ != "problems"@,
        "state"@ != "version"@,
        "state"@ != "path"@,
        "state"@ != "manifest"@,
        "state"@ != "action"@,
        "state"@ != "results"@,
        "state"@ != "ok"@,
        "uptime_ms"@ != "exit_code"@,
        "uptime_ms"@ != "signal"@,
        "uptime_ms"@ != "held_by"@,
        "uptime_ms"@ != "note"@,
        "uptime_ms"@ != "ports"@,
        "uptime_ms"@ != "unit"@,
        "uptime_ms"@ != "kind"@,
        "uptime_ms"@ != "name"@,
        "uptime_ms"@ != "project"@,
        "uptime_ms"@ != "repo"@,
        "uptime_ms"@ != "one_shot"@,
        "uptime_ms"@ != "manifest_note"@,
        "uptime_ms"@ != "cmd"@,
        "uptime_ms"@ != "cwd"@,
        "uptime_ms"@ != "log"@,
        "uptime_ms"@ != "pid"@,
        "uptime_ms"@ != "error"@,
        "uptime_ms"@ != "daemon"@,
        "uptime_ms"@ != "units"@,
        "uptime_ms"@ != "problems"@,
        "uptime_ms"@ != "version"@,
        "uptime_ms"@ != "path"@,
        "uptime_ms"@ != "manifest"@,
        "uptime_ms"@ != "action"@,
        "uptime_ms"@ != "results"@,
        "uptime_ms"@ != "ok"@,
        "exit_code"@ != "signal"@,
        "exit_code"@ != "held_by"@,
        "exit_code"@ != "note"@,
        "exit_code"@ != "ports"@,
        "exit_code"@ != "unit"@,
        "exit_code"@ != "kind"@,
        "exit_code"@ != "name"@,
        "exit_code"@ != "project"@,
        "exit_code"@ != "repo"@,
        "exit_code"@ != "one_shot"@,
        "exit_code"@ != "manifest_note"@,
        "exit_code"@ != "cmd"@,
        "exit_code"@ != "cwd"@,
        "exit_code"@ != "log"@,
        "exit_code"@ != "pid"@,
        "exit_code"@ != "error"@,
        "exit_code"@ != "daemon"@,
        "exit_code"@ != "units"@,
        "exit_code"@ != "problems"@,
        "exit_code"@ != "version"@,
        "exit_code"@ != "path"@,
        "exit_code"@ != "manifest"@,
        "exit_code"@ != "action"@,
        "exit_code"@ != "results"@,
        "exit_code"@ != "ok"@,
        "signal"@ != "held_by"@,
        "signal"@ != "note"@,
        "signal"@ != "ports"@,
        "signal"@ != "unit"@,
        "signal"@ != "kind"@,
        "signal"@ != "name"@,
        "signal"@ != "project"@,
        "signal"@ != "repo"@,
        "signal"@ != "one_shot"@,
        "signal"@ != "manifest_note"@,
        "signal"@ != "cmd"@,
        "signal"@ != "cwd"@,
        "signal"@ != "log"@,
        "signal"@ != "pid"@,
        "signal"@ != "error"@,
        "signal"@ != "daemon"@,
        "signal"@ != "units"@,
        "signal"@ != "problems"@,
        "signal"@ != "version"@,
        "signal"@ != "path"@,
        "signal"@ != "manifest"@,
        "signal"@ != "action"@,
        "signal"@ != "results"@,
        "signal"@ != "ok"@,
        "held_by"@ != "note"@,
        "held_by"@ != "ports"@,
        "held_by"@ != "unit"@,
        "held_by"@ != "kind"@,
        "held_by"@ != "name"@,
        "held_by"@ != "project"@,
        "held_by"@ != "repo"@,
        "held_by"@ != "one_shot"@,
        "held_by"@ != "manifest_note"@,
        "held_by"@ != "cmd"@,
        "held_by"@ != "cwd"@,
        "held_by"@ != "log"@,
        "held_by"@ != "pid"@,
        "held_by"@ != "error"@,
        "held_by"@ != "daemon"@,
        "held_by"@ != "units"@,
        "held_by"@ != "problems"@,
        "held_by"@ != "version"@,
        "held_by"@ != "path"@,
        "held_by"@ != "manifest"@,
        "held_by"@ != "action"@,
        "held_by"@ != "results"@,
        "held_by"@ != "ok"@,
        "note"@ != "ports"@,
        "note"@ != "unit"@,
        "note"@ != "kind"@,
        "note"@ != "name"@,
        "note"@ != "project"@,
        "note"@ != "repo"@,
        "note"@ != "one_shot"@,
        "note"@ != "manifest_note"@,
        "note"@ != "cmd"@,
        "note"@ != "cwd"@,
        "note"@ != "log"@,
        "note"@ != "pid"@,
        "note"@ != "error"@,
        "note"@ != "daemon"@,
        "note"@ != "units"@,
        "note"@ != "problems"@,
        "note"@ != "version"@,
        "note"@ != "path"@,
        "note"@ != "manifest"@,
        "note"@ != "action"@,
        "note"@ != "results"@,
        "note"@ != "ok"@,
        "ports"@ != "unit"@,
        "ports"@ != "kind"@,
        "ports"@ != "name"@,
        "ports"@ != "project"@,
        "ports"@ != "repo"@,
        "ports"@ != "one_shot"@,
        "ports"@ != "manifest_note"@,
        "ports"@ != "cmd"@,
        "ports"@ != "cwd"@,
        "ports"@ != "log"@,
        "ports"@ != "pid"@,
        "ports"@ != "error"@,
        "ports"@ != "daemon"@,
        "ports"@ != "units"@,
        "ports"@ != "problems"@,
        "ports"@ != "version"@,
        "ports"@ != "path"@,
        "ports"@ != "manifest"@,
        "ports"@ != "action"@,
        "ports"@ != "results"@,
        "ports"@ != "ok"@,
        "unit"@ != "kind"@,
        "unit"@ != "name"@,
        "unit"@ != "project"@,
        "unit"@ != "repo"@,
        "unit"@ != "one_shot"@,
        "unit"@ != "manifest_note"@,
        "unit"@ != "cmd"@,
        "unit"@ != "cwd"@,
        "unit"@ != "log"@,
        "unit"@ != "pid"@,
        "unit"@ != "error"@,
        "unit"@ != "daemon"@,
        "unit"@ != "units"@,
        "unit"@ != "problems"@,
        "unit"@ != "version"@,
        "unit"@ != "path"@,
        "unit"@ != "manifest"@,
        "unit"@ != "action"@,
        "unit"@ != "results"@,
        "unit"@ != "ok"@,
        "kind"@ != "name"@,
        "kind"@ != "project"@,
        "kind"@ != "repo"@,
        "kind"@ != "one_shot"@,
        "kind"@ != "manifest_note"@,
        "kind"@ != "cmd"@,
        "kind"@ != "cwd"@,
        "kind"@ != "log"@,
        "kind"@ != "pid"@,
        "kind"@ != "error"@,
        "kind"@ != "daemon"@,
        "kind"@ != "units"@,
        "kind"@ != "problems"@,
        "kind"@ != "version"@,
        "kind"@ != "path"@,
        "kind"@ != "manifest"@,
        "kind"@ != "action"@,
        "kind"@ != "results"@,
        "kind"@ != "ok"@,
        "name"@ != "project"@,
        "name"@ != "repo"@,
        "name"@ != "one_shot"@,
        "name"@ != "manifest_note"@,
        "name"@ != "cmd"@,
        "name"@ != "cwd"@,
        "name"@ != "log"@,
        "name"@ != "pid"@,
        "name"@ != "error"@,
        "name"@ != "daemon"@,
        "name"@ != "units"@,
        "name"@ != "problems"@,
        "name"@ != "version"@,
        "name"@ != "path"@,
        "name"@ != "manifest"@,
        "name"@ != "action"@,
        "name"@ != "results"@,
        "name"@ != "ok"@,
        "project"@ != "repo"@,
        "project"@ != "one_shot"@,
        "project"@ != "manifest_note"@,
        "project"@ != "cmd"@,
        "project"@ != "cwd"@,
        "project"@ != "log"@,
        "project"@ != "pid"@,
        "project"@ != "error"@,
        "project"@ != "daemon"@,
        "project"@ != "units"@,
        "project"@ != "problems"@,
        "project"@ != "version"@,
        "project"@ != "path"@,
        "project"@ != "manifest"@,
        "project"@ != "action"@,
        "project"@ != "results"@,
        "project"@ != "ok"@,
        "repo"@ != "one_shot"@,
        "repo"@ != "manifest_note"@,
        "repo"@ != "cmd"@,
        "repo"@ != "cwd"@,
        "repo"@ != "log"@,
        "repo"@ != "pid"@,
        "repo"@ != "error"@,
        "repo"@ != "daemon"@,
        "repo"@ != "units"@,
        "repo"@ != "problems"@,
        "repo"@ != "version"@,
        "repo"@ != "path"@,
        "repo"@ != "manifest"@,
        "repo"@ != "action"@,
        "repo"@ != "results"@,
        "repo"@ != "ok"@,
        "one_shot"@ != "manifest_note"@,
        "one_shot"@ != "cmd"@,
        "one_shot"@ != "cwd"@,
        "one_shot"@ != "log"@,
        "one_shot"@ != "pid"@,
        "one_shot"@ != "error"@,
        "one_shot"@ != "daemon"@,
        "one_shot"@ != "units"@,
        "one_shot"@ != "problems"@,
        "one_shot"@ != "version"@,
        "one_shot"@ != "path"@,
        "one_shot"@ != "manifest"@,
        "one_shot"@ != "action"@,
        "one_shot"@ != "results"@,
        "one_shot"@ != "ok"@,
        "manifest_note"@ != "cmd"@,
        "manifest_note"@ != "cwd"@,
        "manifest_note"@ != "log"@,
        "manifest_note"@ != "pid"@,
        "manifest_note"@ != "error"@,
        "manifest_note"@ != "daemon"@,
        "manifest_note"@ != "units"@,
        "manifest_note"@ != "problems"@,
        "manifest_note"@ != "version"@,
        "manifest_note"@ != "path"@,
        "manifest_note"@ != "manifest"@,
        "manifest_note"@ != "action"@,
        "manifest_note"@ != "results"@,
        "manifest_note"@ != "ok"@,
        "cmd"@ != "cwd"@,
        "cmd"@ != "log"@,
        "cmd"@ != "pid"@,
        "cmd"@ != "error"@,
        "cmd"@ != "daemon"@,
        "cmd"@ != "units"@,
        "cmd"@ != "problems"@,
        "cmd"@ != "version"@,
        "cmd"@ != "path"@,
        "cmd"@ != "manifest"@,
        "cmd"@ != "action"@,
        "cmd"@ != "results"@,
        "cmd"@ != "ok"@,
        "cwd"@ != "log"@,
        "cwd"@ != "pid"@,
        "cwd"@ != "error"@,
        "cwd"@ != "daemon"@,
        "cwd"@ != "units"@,
        "cwd"@ != "problems"@,
        "cwd"@ != "version"@,
        "cwd"@ != "path"@,
        "cwd"@ != "manifest"@,
        "cwd"@ != "action"@,
        "cwd"@ != "results"@,
        "cwd"@ != "ok"@,
        "log"@ != "pid"@,
        "log"@ != "error"@,
        "log"@ != "daemon"@,
        "log"@ != "units"@,
        "log"@ != "problems"@,
        "log"@ != "version"@,
        "log"@ != "path"@,
        "log"@ != "manifest"@,
        "log"@ != "action"@,
        "log"@ != "results"@,
        "log"@ != "ok"@,
        "pid"@ != "error"@,
        "pid"@ != "daemon"@,
        "pid"@ != "units"@,
        "pid"@ != "problems"@,
        "pid"@ != "version"@,
        "pid"@ != "path"@,
        "pid"@ != "manifest"@,
        "pid"@ != "action"@,
        "pid"@ != "results"@,
        "pid"@ != "ok"@,
        "error"@ != "daemon"@,
        "error"@ != "units"@,
        "error"@ != "problems"@,
        "error"@ != "version"@,
        "error"@ != "path"@,
        "error"@ != "manifest"@,
        "error"@ != "action"@,
        "error"@ != "results"@,
        "error"@ != "ok"@,
        "daemon"@ != "units"@,
        "daemon"@ != "problems"@,
        "daemon"@ != "version"@,
        "daemon"@ != "path"@,
        "daemon"@ != "manifest"@,
        "daemon"@ != "action"@,
        "daemon"@ != "results"@,
        "daemon"@ != "ok"@,
        "units"@ != "problems"@,
        "units"@ != "version"@,
        "units"@ != "path"@,
        "units"@ != "manifest"@,
        "units"@ != "action"@,
        "units"@ != "results"@,
        "units"@ != "ok"@,
        "problems"@ != "version"@,
        "problems"@ != "path"@,
        "problems"@ != "manifest"@,
        "problems"@ != "action"@,
        "problems"@ != "results"@,
        "problems"@ != "ok"@,
        "version"@ != "path"@,
        "version"@ != "manifest"@,
        "version"@ != "action"@,
        "version"@ != "results"@,
        "version"@ != "ok"@,
        "path"@ != "manifest"@,
        "path"@ != "action"@,
        "path"@ != "results"@,
        "path"@ != "ok"@,
        "manifest"@ != "action"@,
        "manifest"@ != "results"@,
        "manifest"@ != "ok"@,
        "action"@ != "results"@,
        "action"@ != "ok"@,
        "results"@ != "ok"@,
{
    reveal_strlit("state");
    reveal_strlit("uptime_ms");
    reveal_strlit("exit_code");
    reveal_strlit("signal");
    reveal_strlit("held_by");
    reveal_strlit("note");
    reveal_strlit("ports");
    reveal_strlit("unit");
    reveal_strlit("kind");
    reveal_strlit("name");
    reveal_strlit("project");
    reveal_strlit("repo");
    reveal_strlit("one_shot");
    reveal_strlit("manifest_note");
    reveal_strlit("cmd");
    reveal_strlit("cwd");
    reveal_strlit("log");
    reveal_strlit("pid");
    reveal_strlit("error");
    reveal_strlit("daemon");
    reveal_strlit("units");
    reveal_strlit("problems");
    reveal_strlit("version");
    reveal_strlit("path");
    reveal_strlit("manifest");
    reveal_strlit("action");
    reveal_strlit("results");
    reveal_strlit("ok");
    assert("state"@.len() != "uptime_ms"@.len());
    assert("state"@.len() != "exit_code"@.len());
    assert("state"@.len() != "signal"@.len());
    assert("state"@.len() != "held_by"@.len());
    assert("state"@.len() != "note"@.len());
    assert("state"@[0] != "ports"@[0]);
    assert("state"@.len() != "unit"@.len());
    assert("state"@.len() != "kind"@.len());
    assert("state"@.len() != "name"@.len());
    assert("state"@.len() != "project"@.len());
    assert("state"@.len() != "repo"@.len());
    assert("state"@.len() != "one_shot"@.len());
    assert("state"@.len() != "manifest_note"@.len());
    assert("state"@.len() != "cmd"@.len());
    assert("state"@.len() != "cwd"@.len());
    assert("state"@.len() != "log"@.len());
    assert("state"@.len() != "pid"@.len());
    assert("state"@[0] != "error"@[0]);
    assert("state"@.len() != "daemon"@.len());
    assert("state"@[0] != "units"@[0]);
    assert("state"@.len() != "problems"@.len());
    assert("state"@.len() != "version"@.len());
    assert("state"@.len() != "path"@.len());
    assert("state"@.len() != "manifest"@.len());
    assert("state"@.len() != "action"@.len());
    assert("state"@.len() != "results"@.len());
    assert("state"@.len() != "ok"@.len());
    assert("uptime_ms"@[0] != "exit_code"@[0]);
    assert("uptime_ms"@.len() != "signal"@.len());
    assert("uptime_ms"@.len() != "held_by"@.len());
    assert("uptime_ms"@.len() != "note"@.len());
    assert("uptime_ms"@.len() != "ports"@.len());
    assert("uptime_ms"@.len() != "unit"@.len());
    assert("uptime_ms"@.len() != "kind"@.len());
    assert("uptime_ms"@.len() != "name"@.len());
    assert("uptime_ms"@.len() != "project"@.len());
    assert("uptime_ms"@.len() != "repo"@.len());
    assert("uptime_ms"@.len() != "one_shot"@.len());
    assert("uptime_ms"@.len() != "manifest_note"@.len());
    assert("uptime_ms"@.len() != "cmd"@.len());
    assert("uptime_ms"@.len() != "cwd"@.len());
    assert("uptime_ms"@.len() != "log"@.len());
    assert("uptime_ms"@.len() != "pid"@.len());
    assert("uptime_ms"@.len() != "error"@.len());
    assert("uptime_ms"@.len() != "daemon"@.len());
    assert("uptime_ms"@.len() != "units"@.len());
    assert("uptime_ms"@.len() != "problems"@.len());
    assert("uptime_ms"@.len() != "version"@.len());
    assert("uptime_ms"@.len() != "path"@.len());
    assert("uptime_ms"@.len() != "manifest"@.len());
    assert("uptime_ms"@.len() != "action"@.len());
    assert("uptime_ms"@.len() != "results"@.len());
    assert("uptime_ms"@.len() != "ok"@.len());
    assert("exit_code"@.len() != "signal"@.len());
    assert("exit_code"@.len() != "held_by"@.len());
    assert("exit_code"@.len() != "note"@.len());
    assert("exit_code"@.len() != "ports"@.len());
    assert("exit_code"@.len() != "unit"@.len());
    assert("exit_code"@.len() != "kind"@.len());
    assert("exit_code"@.len() != "name"@.len());
    assert("exit_code"@.len() != "project"@.len());
    assert("exit_code"@.len() != "repo"@.len());
    assert("exit_code"@.len() != "one_shot"@.len());
    assert("exit_code"@.len() != "manifest_note"@.len());
    assert("exit_code"@.len() != "cmd"@.len());
    assert("exit_code"@.len() != "cwd"@.len());
    assert("exit_code"@.len() != "log"@.len());
    assert("exit_code"@.len() != "pid"@.len());
    assert("exit_code"@.len() != "error"@.len());
    assert("exit_code"@.len() != "daemon"@.len());
    assert("exit_code"@.len() != "units"@.len());
    assert("exit_code"@.len() != "problems"@.len());
    assert("exit_code"@.len() != "version"@.len());
    assert("exit_code"@.len() != "path"@.len());
    assert("exit_code"@.len() != "manifest"@.len());
    assert("exit_code"@.len() != "action"@.len());
    assert("exit_code"@.len() != "results"@.len());
    assert("exit_code"@.len() != "ok"@.len());
    assert("signal"@.len() != "held_by"@.len());
    assert("signal"@.len() != "note"@.len());
    assert("signal"@.len() != "ports"@.len());
    assert("signal"@.len() != "unit"@.len());
    assert("signal"@.len() != "kind"@.len());
    assert("signal"@.len() != "name"@.len());
    assert("signal"@.len() != "project"@.len());
    assert("signal"@.len() != "repo"@.len());
    assert("signal"@.len() != "one_shot"@.len());
    assert("signal"@.len() != "manifest_note"@.len());
    assert("signal"@.len() != "cmd"@.len());
    assert("signal"@.len() != "cwd"@.len());
    assert("signal"@.len() != "log"@.len());
    assert("signal"@.len() != "pid"@.len());
    assert("signal"@.len() != "error"@.len());
    assert("signal"@[0] != "daemon"@[0]);
    assert("signal"@.len() != "units"@.len());
    assert("signal"@.len() != "problems"@.len());
    assert("signal"@.len() != "version"@.len());
    assert("signal"@.len() != "path"@.len());
    assert("signal"@.len() != "manifest"@.len());
    assert("signal"@[0] != "action"@[0]);
    assert("signal"@.len() != "results"@.len());
    assert("signal"@.len() != "ok"@.len());
    assert("held_by"@.len() != "note"@.len());
    assert("held_by"@.len() != "ports"@.len());
    assert("held_by"@.len() != "unit"@.len());
    assert("held_by"@.len() != "kind"@.len());
    assert("held_by"@.len() != "name"@.len());
    assert("held_by"@[0] != "project"@[0]);
    assert("held_by"@.len() != "repo"@.len());
    assert("held_by"@.len() != "one_shot"@.len());
    assert("held_by"@.len() != "manifest_note"@.len());
    assert("held_by"@.len() != "cmd"@.len());
    assert("held_by"@.len() != "cwd"@.len());
    assert("held_by"@.len() != "log"@.len());
    assert("held_by"@.len() != "pid"@.len());
    assert("held_by"@.len() != "error"@.len());
    assert("held_by"@.len() != "daemon"@.len());
    assert("held_by"@.len() != "units"@.len());
    assert("held_by"@.len() != "problems"@.len());
    assert("held_by"@[0] != "version"@[0]);
    assert("held_by"@.len() != "path"@.len());
    assert("held_by"@.len() != "manifest"@.len());
    assert("held_by"@.len() != "action"@.len());
    assert("held_by"@[0] != "results"@[0]);
    assert("held_by"@.len() != "ok"@.len());
    assert("note"@.len() != "ports"@.len());
    assert("note"@[0] != "unit"@[0]);
    assert("note"@[0] != "kind"@[0]);
    assert("note"@[1] != "name"@[1]);
    assert("note"@.len() != "project"@.len());
    assert("note"@[0] != "repo"@[0]);
    assert("note"@.len() != "one_shot"@.len());
    assert("note"@.len() != "manifest_note"@.len());
    assert("note"@.len() != "cmd"@.len());
    assert("note"@.len() != "cwd"@.len());
    assert("note"@.len() != "log"@.len());
    assert("note"@.len() != "pid"@.len());
    assert("note"@.len() != "error"@.len());
    assert("note"@.len() != "daemon"@.len());
    assert("note"@.len() != "units"@.len());
    assert("note"@.len() != "problems"@.len());
    assert("note"@.len() != "version"@.len());
    assert("note"@[0] != "path"@[0]);
    assert("note"@.len() != "manifest"@.len());
    assert("note"@.len() != "action"@.len());
    assert("note"@.len() != "results"@.len());
    assert("note"@.len() != "ok"@.len());
    assert("ports"@.len() != "unit"@.len());
    assert("ports"@.len() != "kind"@.len());
    assert("ports"@.len() != "name"@.len());
    assert("ports"@.len() != "project"@.len());
    assert("ports"@.len() != "repo"@.len());
    assert("ports"@.len() != "one_shot"@.len());
    assert("ports"@.len() != "manifest_note"@.len());
    assert("ports"@.len() != "cmd"@.len());
    assert("ports"@.len() != "cwd"@.len());
    assert("ports"@.len() != "log"@.len());
    assert("ports"@.len() != "pid"@.len());
    assert("ports"@[0] != "error"@[0]);
    assert("ports"@.len() != "daemon"@.len());
    assert("ports"@[0] != "units"@[0]);
    assert("ports"@.len() != "problems"@.len());
    assert("ports"@.len() != "version"@.len());
    assert("ports"@.len() != "path"@.len());
    assert("ports"@.len() != "manifest"@.len());
    assert("ports"@.len() != "action"@.len());
    assert("ports"@.len() != "results"@.len());
    assert("ports"@.len() != "ok"@.len());
    assert("unit"@[0] != "kind"@[0]);
    assert("unit"@[0] != "name"@[0]);
    assert("unit"@.len() != "project"@.len());
    assert("unit"@[0] != "repo"@[0]);
    assert("unit"@.len() != "one_shot"@.len());
    assert("unit"@.len() != "manifest_note"@.len());
    assert("unit"@.len() != "cmd"@.len());
    assert("unit"@.len() != "cwd"@.len());
    assert("unit"@.len() != "log"@.len());
    assert("unit"@.len() != "pid"@.len());
    assert("unit"@.len() != "error"@.len());
    assert("unit"@.len() != "daemon"@.len());
    assert("unit"@.len() != "units"@.len());
    assert("unit"@.len() != "problems"@.len());
    assert("unit"@.len() != "version"@.len());
    assert("unit"@[0] != "path"@[0]);
    assert("unit"@.len() != "manifest"@.len());
    assert("unit"@.len() != "action"@.len());
    assert("unit"@.len() != "results"@.len());
    assert("unit"@.len() != "ok"@.len());
    assert("kind"@[0] != "name"@[0]);
    assert("kind"@.len() != "project"@.len());
    assert("kind"@[0] != "repo"@[0]);
    assert("kind"@.len() != "one_shot"@.len());
    assert("kind"@.len() != "manifest_note"@.len());
    assert("kind"@.len() != "cmd"@.len());
    assert("kind"@.len() != "cwd"@.len());
    assert("kind"@.len() != "log"@.len());
    assert("kind"@.len() != "pid"@.len());
    assert("kind"@.len() != "error"@.len());
    assert("kind"@.len() != "daemon"@.len());
    assert("kind"@.len() != "units"@.len());
    assert("kind"@.len() != "problems"@.len());
    assert("kind"@.len() != "version"@.len());
    assert("kind"@[0] != "path"@[0]);
    assert("kind"@.len() != "manifest"@.len());
    assert("kind"@.len() != "action"@.len());
    assert("kind"@.len() != "results"@.len());
    assert("kind"@.len() != "ok"@.len());
    assert("name"@.len() != "project"@.len());
    assert("name"@[0] != "repo"@[0]);
    assert("name"@.len() != "one_shot"@.len());
    assert("name"@.len() != "manifest_note"@.len());
    assert("name"@.len() != "cmd"@.len());
    assert("name"@.len() != "cwd"@.len());
    assert("name"@.len() != "log"@.len());
    assert("name"@.len() != "pid"@.len());
    assert("name"@.len() != "error"@.len());
    assert("name"@.len() != "daemon"@.len());
    assert("name"@.len() != "units"@.len());
    assert("name"@.len() != "problems"@.len());
    assert("name"@.len() != "version"@.len());
    assert("name"@[0] != "path"@[0]);
    assert("name"@.len() != "manifest"@.len());
    assert("name"@.len() != "action"@.len());
    assert("name"@.len() != "results"@.len());
    assert("name"@.len() != "ok"@.len());
    assert("project"@.len() != "repo"@.len());
    assert("project"@.len() != "one_shot"@.len());
    assert("project"@.len() != "manifest_note"@.len());
    assert("project"@.len() != "cmd"@.len());
    assert("project"@.len() != "cwd"@.len());
    assert("project"@.len() != "log"@.len());
    assert("project"@.len() != "pid"@.len());
    assert("project"@.len() != "error"@.len());
    assert("project"@.len() != "daemon"@.len());
    assert("project"@.len() != "units"@.len());
    assert("project"@.len() != "problems"@.len());
    assert("project"@[0] != "version"@[0]);
    assert("project"@.len() != "path"@.len());
    assert("project"@.len() != "manifest"@.len());
    assert("project"@.len() != "action"@.len());
    assert("project"@[0] != "results"@[0]);
    assert("project"@.len() != "ok"@.len());
    assert("repo"@.len() != "one_shot"@.len());
    assert("repo"@.len() != "manifest_note"@.len());
    assert("repo"@.len() != "cmd"@.len());
    assert("repo"@.len() != "cwd"@.len());
    assert("repo"@.len() != "log"@.len());
    assert("repo"@.len() != "pid"@.len());
    assert("repo"@.len() != "error"@.len());
    assert("repo"@.len() != "daemon"@.len());
    assert("repo"@.len() != "units"@.len());
    assert("repo"@.len() != "problems"@.len());
    assert("repo"@.len() != "version"@.len());
    assert("repo"@[0] != "path"@[0]);
    assert("repo"@.len() != "manifest"@.len());
    assert("repo"@.len() != "action"@.len());
    assert("repo"@.len() != "results"@.len());
    assert("repo"@.len() != "ok"@.len());
    assert("one_shot"@.len() != "manifest_note"@.len());
    assert("one_shot"@.len() != "cmd"@.len());
    assert("one_shot"@.len() != "cwd"@.len());
    assert("one_shot"@.len() != "log"@.len());
    assert("one_shot"@.len() != "pid"@.len());
    assert("one_shot"@.len() != "error"@.len());
    assert("one_shot"@.len() != "daemon"@.len());
    assert("one_shot"@.len() != "units"@.len());
    assert("one_shot"@[0] != "problems"@[0]);
    assert("one_shot"@.len() != "version"@.len());
    assert("one_shot"@.len() != "path"@.len());
    assert("one_shot"@[0] != "manifest"@[0]);
    assert("one_shot"@.len() != "action"@.len());
    assert("one_shot"@.len() != "results"@.len());
    assert("one_shot"@.len() != "ok"@.len());
    assert("manifest_note"@.len() != "cmd"@.len());
    assert("manifest_note"@.len() != "cwd"@.len());
    assert("manifest_note"@.len() != "log"@.len());
    assert("manifest_note"@.len() != "pid"@.len());
    assert("manifest_note"@.len() != "error"@.len());
    assert("manifest_note"@.len() != "daemon"@.len());
    assert("manifest_note"@.len() != "units"@.len());
    assert("manifest_note"@.len() != "problems"@.len());
    assert("manifest_note"@.len() != "version"@.len());
    assert("manifest_note"@.len() != "path"@.len());
    assert("manifest_note"@.len() != "manifest"@.len());
    assert("manifest_note"@.len() != "action"@.len());
    assert("manifest_note"@.len() != "results"@.len());
    assert("manifest_note"@.len() != "ok"@.len());
    assert("cmd"@[1] != "cwd"@[1]);
    assert("cmd"@[0] != "log"@[0]);
    assert("cmd"@[0] != "pid"@[0]);
    assert("cmd"@.len() != "error"@.len());
    assert("cmd"@.len() != "daemon"@.len());
    assert("cmd"@.len() != "units"@.len());
    assert("cmd"@.len() != "problems"@.len());
    assert("cmd"@.len() != "version"@.len());
    assert("cmd"@.len() != "path"@.len());
    assert("cmd"@.len() != "manifest"@.len());
    assert("cmd"@.len() != "action"@.len());
    assert("cmd"@.len() != "results"@.len());
    assert("cmd"@.len() != "ok"@.len());
    assert("cwd"@[0] != "log"@[0]);
    assert("cwd"@[0] != "pid"@[0]);
    assert("cwd"@.len() != "error"@.len());
    assert("cwd"@.len() != "daemon"@.len());
    assert("cwd"@.len() != "units"@.len());
    assert("cwd"@.len() != "problems"@.len());
    assert("cwd"@.len() != "version"@.len());
    assert("cwd"@.len() != "path"@.len());
    assert("cwd"@.len() != "manifest"@.len());
    assert("cwd"@.len() != "action"@.len());
    assert("cwd"@.len() != "results"@.len());
    assert("cwd"@.len() != "ok"@.len());
    assert("log"@[0] != "pid"@[0]);
    assert("log"@.len() != "error"@.len());
    assert("log"@.len() != "daemon"@.len());
    assert("log"@.len() != "units"@.len());
    assert("log"@.len() != "problems"@.len());
    assert("log"@.len() != "version"@.len());
    assert("log"@.len() != "path"@.len());
    assert("log"@.len() != "manifest"@.len());
    assert("log"@.len() != "action"@.len());
    assert("log"@.len() != "results"@.len());
    assert("log"@.len() != "ok"@.len());
    assert("pid"@.len() != "error"@.len());
    assert("pid"@.len() != "daemon"@.len());
    assert("pid"@.len() != "units"@.len());
    assert("pid"@.len() != "problems"@.len());
    assert("pid"@.len() != "version"@.len());
    assert("pid"@.len() != "path"@.len());
    assert("pid"@.len() != "manifest"@.len());
    assert("pid"@.len() != "action"@.len());
    assert("pid"@.len() != "results"@.len());
    assert("pid"@.len() != "ok"@.len());
    assert("error"@.len() != "daemon"@.len());
    assert("error"@[0] != "units"@[0]);
    assert("error"@.len() != "problems"@.len());
    assert("error"@.len() != "version"@.len());
    assert("error"@.len() != "path"@.len());
    assert("error"@.len() != "manifest"@.len());
    assert("error"@.len() != "action"@.len());
    assert("error"@.len() != "results"@.len());
    assert("error"@.len() != "ok"@.len());
    assert("daemon"@.len() != "units"@.len());
    assert("daemon"@.len() != "problems"@.len());
    assert("daemon"@.len() != "version"@.len());
    assert("daemon"@.len() != "path"@.len());
    assert("daemon"@.len() != "manifest"@.len());
    assert("daemon"@[0] != "action"@[0]);
    assert("daemon"@.len() != "results"@.len());
    assert("daemon"@.len() != "ok"@.len());
    assert("units"@.len() != "problems"@.len());
    assert("units"@.len() != "version"@.len());
    assert("units"@.len() != "path"@.len());
    assert("units"@.len() != "manifest"@.len());
    assert("units"@.len() != "action"@.len());
    assert("units"@.len() != "results"@.len());
    assert("units"@.len() != "ok"@.len());
    assert("problems"@.len() != "version"@.len());
    assert("problems"@.len() != "path"@.len());
    assert("problems"@[0] != "manifest"@[0]);
    assert("problems"@.len() != "action"@.len());
    assert("problems"@.len() != "results"@.len());
    assert("problems"@.len() != "ok"@.len());
    assert("version"@.len() != "path"@.len());
    assert("version"@.len() != "manifest"@.len());
    assert("version"@.len() != "action"@.len());
    assert("version"@[0] != "results"@[0]);
    assert("version"@.len() != "ok"@.len());
    assert("path"@.len() != "manifest"@.len());
    assert("path"@.len() != "action"@.len());
    assert("path"@.len() != "results"@.len());
    assert("path"@.len() != "ok"@.len());
    assert("manifest"@.len() != "action"@.len());
    assert("manifest"@.len() != "results"@.len());
    assert("manifest"@.len() != "ok"@.len());
    assert("action"@.len() != "results"@.len());
    assert("action"@.len() != "ok"@.len());
    assert("results"@.len() != "ok"@.len());
}

/// One unit as the agent reads it, from what the daemon said of it, if anything.
#[verifier::spinoff_prover]
#[verifier::rlimit(40)]
pub fn spelled(status: Option<&Status>, key: &str, kind: &str, name: &str, repo: Option<&str>, root: &str) -> (r: Json)
    ensures
        spelled_ok(
            r,
            match status {
                Some(s) => *s,
                None => Status::bare(State::Down),
            },
            key@,
            kind@,
            name@,
            match repo {
                Some(p) => Some(p@),
                None => None,
            },
            root@,
        ),
        forall|k: Seq<char>| !(match status {
            Some(s) => *s,
            None => Status::bare(State::Down),
        }).wire_keys().contains(k) && k != "ports"@ && k != "unit"@ && k != "kind"@ && k != "name"@
            && k != "project"@ && k != "repo"@ ==> #[trigger] get_spec(r, k) is None,
{
    proof {
        lemma_document_names_differ();
    }
    let mut value = match status {
        Some(s) => s.to_value(),
        None => Status::of(State::Down).to_value(),
    };
    let ghost v0 = value;
    assert(v0 is Object) by {
        assert(keys_of(v0).len() > 0);
    }
    if get(&value, "ports").is_none() {
        insert(&mut value, "ports", Json::Array(Vec::new()));
    }
    let ghost v1 = value;
    insert(&mut value, "unit", text(key));
    let ghost v2 = value;
    insert(&mut value, "kind", text(kind));
    let ghost v3 = value;
    insert(&mut value, "name", text(name));
    let ghost v4 = value;
    insert(&mut value, "project", text(root));
    let ghost v5 = value;
    match repo {
        Some(p) => insert(&mut value, "repo", text(p)),
        None => {},
    }
    proof {
        lemma_status_unmoved(v1, v0);
        lemma_status_unmoved(v2, v1);
        lemma_status_unmoved(v3, v2);
        lemma_status_unmoved(v4, v3);
        lemma_status_unmoved(v5, v4);
        lemma_status_unmoved(value, v5);
        let st = match status {
            Some(s) => *s,
            None => Status::bare(State::Down),
        };
        assert(!st.wire_keys().contains("repo"@)) by {
            if st.wire_keys().contains("repo"@) {
                let j = choose|j: int| 0 <= j < st.wire_keys().len() && st.wire_keys()[j] == "repo"@;
                assert(st.wire_keys()[j] == "repo"@);
            }
        }
        assert(get_spec(v0, "repo"@) is None);
        assert forall|k: Seq<char>| !st.wire_keys().contains(k) && k != "ports"@ && k != "unit"@ && k != "kind"@ && k != "name"@
            && k != "project"@ && k != "repo"@ implies #[trigger] get_spec(value, k) is None by {
            assert(get_spec(v0, k) is None);
            assert(get_spec(v1, k) == get_spec(v0, k));
            assert(get_spec(v2, k) == get_spec(v1, k));
            assert(get_spec(v3, k) == get_spec(v2, k));
            assert(get_spec(v4, k) == get_spec(v3, k));
            assert(get_spec(v5, k) == get_spec(v4, k));
        }
    }
    value
}


/// Everything `spelled` promises still holds of a document that only gained or changed a member of
/// another name.
proof fn lemma_spelled_kept(a: Json, b: Json, added: Seq<char>, status: Status, key: Seq<char>, kind: Seq<char>, name: Seq<char>, repo: Option<Seq<char>>, root: Seq<char>, extra: Seq<Seq<char>>, at: int)
    requires
        spelled_ok(a, status, key, kind, name, repo, root),
        keys_within(a, status, extra),
        0 <= at < extra.len(),
        extra[at] == added,
        b is Object,
        forall|k: Seq<char>| k != added ==> #[trigger] get_spec(b, k) == get_spec(a, k),
        added != "state"@ && added != "uptime_ms"@ && added != "exit_code"@ && added != "signal"@ && added != "held_by"@ && added != "note"@,
        added != "ports"@ && added != "unit"@ && added != "kind"@ && added != "name"@ && added != "project"@ && added != "repo"@,
    ensures
        spelled_ok(b, status, key, kind, name, repo, root),
        keys_within(b, status, extra),
{
    assert forall|k: Seq<char>| !spelled_key(status, k) && !extra.contains(k) implies #[trigger] get_spec(b, k) is None by {
        assert(k != added);
        assert(get_spec(b, k) == get_spec(a, k));
    }
    assert(get_spec(b, "state"@) == get_spec(a, "state"@));
    assert(get_spec(b, "uptime_ms"@) == get_spec(a, "uptime_ms"@));
    assert(get_spec(b, "exit_code"@) == get_spec(a, "exit_code"@));
    assert(get_spec(b, "signal"@) == get_spec(a, "signal"@));
    assert(get_spec(b, "held_by"@) == get_spec(a, "held_by"@));
    assert(get_spec(b, "note"@) == get_spec(a, "note"@));
    lemma_status_unmoved(b, a);
    assert(get_spec(b, "ports"@) == get_spec(a, "ports"@));
    assert(get_spec(b, "unit"@) == get_spec(a, "unit"@));
    assert(get_spec(b, "kind"@) == get_spec(a, "kind"@));
    assert(get_spec(b, "name"@) == get_spec(a, "name"@));
    assert(get_spec(b, "project"@) == get_spec(a, "project"@));
    assert(get_spec(b, "repo"@) == get_spec(a, "repo"@));
}

/// The pid a unit's record names, by unit key.
pub open spec fn pid_of(pids: Seq<(String, u32)>, key: Seq<char>) -> Option<u32>
    decreases pids.len(),
{
    if pids.len() == 0 {
        None
    } else {
        match pid_of(pids.drop_last(), key) {
            Some(p) => Some(p),
            None => if pids.last().0@ == key {
                Some(pids.last().1)
            } else {
                None
            },
        }
    }
}

fn find_pid(pids: &Vec<(String, u32)>, key: &str) -> (r: Option<u32>)
    ensures
        r == pid_of(pids@, key@),
{
    let mut i: usize = 0;
    while i < pids.len()
        invariant
            i <= pids@.len(),
            pid_of(pids@.subrange(0, i as int), key@) is None,
        decreases pids.len() - i,
    {
        assert(pids@.subrange(0, i as int + 1).drop_last() =~= pids@.subrange(0, i as int));
        if str_eq(pids[i].0.as_str(), key) {
            proof {
                lemma_pid_of_found(pids@, key@, i as int + 1);
            }
            return Some(pids[i].1);
        }
        i += 1;
    }
    assert(pids@.subrange(0, pids@.len() as int) =~= pids@);
    None
}

proof fn lemma_pid_of_found(pids: Seq<(String, u32)>, key: Seq<char>, k: int)
    requires
        0 < k <= pids.len(),
        pid_of(pids.subrange(0, k - 1), key) is None,
        pids[k - 1].0@ == key,
    ensures
        pid_of(pids, key) == Some(pids[k - 1].1),
    decreases pids.len() - k,
{
    assert(pids.subrange(0, k).drop_last() =~= pids.subrange(0, k - 1));
    if k < pids.len() {
        assert(pids.subrange(0, k + 1).drop_last() =~= pids.subrange(0, k));
        lemma_pid_of_prefix(pids, key, k);
    } else {
        assert(pids.subrange(0, k) =~= pids);
    }
}

proof fn lemma_pid_of_prefix(pids: Seq<(String, u32)>, key: Seq<char>, k: int)
    requires
        0 <= k <= pids.len(),
        pid_of(pids.subrange(0, k), key) is Some,
    ensures
        pid_of(pids, key) == pid_of(pids.subrange(0, k), key),
    decreases pids.len() - k,
{
    if k < pids.len() {
        assert(pids.subrange(0, k + 1).drop_last() =~= pids.subrange(0, k));
        lemma_pid_of_prefix(pids, key, k + 1);
    } else {
        assert(pids.subrange(0, k) =~= pids);
    }
}

/// What the daemon last said of `key`, or `down` when it never said anything.
pub open spec fn status_or_down(statuses: Seq<(String, Status)>, key: Seq<char>) -> Status {
    match crate::rows::status_of(statuses, key) {
        Some(s) => s,
        None => Status::bare(State::Down),
    }
}

/// A key `spelled` may write for a unit whose status is `status`.
pub open spec fn spelled_key(status: Status, k: Seq<char>) -> bool {
    status.wire_keys().contains(k) || k == "ports"@ || k == "unit"@ || k == "kind"@ || k == "name"@
        || k == "project"@ || k == "repo"@
}

/// Nothing in `v` under a key that is neither one `spelled` writes nor one of `extra`.
pub open spec fn keys_within(v: Json, status: Status, extra: Seq<Seq<char>>) -> bool {
    forall|k: Seq<char>| !spelled_key(status, k) && !extra.contains(k) ==> #[trigger] get_spec(v, k) is None
}

/// The keys a service's document adds to what `spelled` writes.
pub open spec fn docker_extra() -> Seq<Seq<char>> {
    seq!["one_shot"@, "manifest_note"@]
}

/// The keys a local unit's document adds to what `spelled` writes.
pub open spec fn local_extra() -> Seq<Seq<char>> {
    seq!["cmd"@, "cwd"@, "log"@, "pid"@, "error"@]
}

/// A service as the agent reads it: its status and place, whether it is a one-shot, and the
/// manifest's standing hint, which keeps a key of its own so the daemon's note does not hide it.
pub open spec fn docker_unit_ok(v: Json, s: DockerService, statuses: Seq<(String, Status)>, repo: Option<Seq<char>>, root: Seq<char>) -> bool {
    let key = key_spec("docker"@, s.name@);
    &&& spelled_ok(v, status_or_down(statuses, key), key, "docker"@, s.name@, repo, root)
    &&& bool_spec(get_spec(v, "one_shot"@)) == Some(s.one_shot)
    &&& said(v, "manifest_note"@) == opt_view(s.note)
    &&& keys_within(v, status_or_down(statuses, key), docker_extra())
}

/// A local unit as the agent reads it: its status and place, what it runs and where, its log, the
/// pid its record names, and what broke it.
pub open spec fn local_unit_ok(v: Json, u: LocalUnit, statuses: Seq<(String, Status)>, repo: Option<Seq<char>>, root: Seq<char>, log: Seq<char>, pid: Option<u32>) -> bool {
    let key = key_spec("local"@, u.name@);
    &&& spelled_ok(v, status_or_down(statuses, key), key, "local"@, u.name@, repo, root)
    &&& crate::daemon::strings_spec(get_spec(v, "cmd"@)) == views(u.cmd@)
    &&& said(v, "cwd"@) == Some(u.cwd@)
    &&& said(v, "log"@) == Some(log)
    &&& u64_spec(get_spec(v, "pid"@)) == match pid {
        Some(p) => Some(p as u64),
        None => None,
    }
    &&& said(v, "error"@) == opt_view(u.problem)
    &&& keys_within(v, status_or_down(statuses, key), local_extra())
}

pub open spec fn repo_view(repo: Option<&str>) -> Option<Seq<char>> {
    match repo {
        Some(p) => Some(p@),
        None => None,
    }
}

/// Every unit of a manifest as the agent reads it: its services, then its local units. `pids` are
/// what the units' records name, by unit key.
pub fn described(project: &Project, repo: Option<&str>, statuses: &Vec<(String, Status)>, store: &Store, pids: &Vec<(String, u32)>) -> (r: Vec<Json>)
    ensures
        r@.len() == project.docker@.len() + project.local@.len(),
        forall|i: int| 0 <= i < project.docker@.len() ==> docker_unit_ok(#[trigger] r@[i], project.docker@[i], statuses@, repo_view(repo), project.root@),
        forall|i: int| 0 <= i < project.local@.len() ==> local_unit_ok(
            #[trigger] r@[project.docker@.len() + i],
            project.local@[i],
            statuses@,
            repo_view(repo),
            project.root@,
            unit_file(slot_dir(store.root_spec(), project_key_spec(project.root@)), "logs"@, key_spec("local"@, project.local@[i].name@), ".log"@),
            pid_of(pids@, key_spec("local"@, project.local@[i].name@)),
        ),
{
    proof {
        lemma_document_names_differ();
    }
    let slot = store.slot(&identity(project));
    let mut units: Vec<Json> = Vec::new();
    let mut i: usize = 0;
    while i < project.docker.len()
        invariant
            i <= project.docker@.len(),
            units@.len() == i,
            forall|j: int| 0 <= j < i ==> docker_unit_ok(#[trigger] units@[j], project.docker@[j], statuses@, repo_view(repo), project.root@),
        decreases project.docker.len() - i,
    {
        proof {
            lemma_document_names_differ();
        }
        let service = &project.docker[i];
        let key = crate::unit::key(crate::unit::DOCKER, service.name.as_str());
        let mut value = spelled(crate::rows::lookup(statuses, key.as_str()), key.as_str(), crate::unit::DOCKER, service.name.as_str(), repo, project.root.as_str());
        let ghost v0 = value;
        insert(&mut value, "one_shot", Json::Bool(service.one_shot));
        proof {
            lemma_spelled_kept(v0, value, "one_shot"@, status_or_down(statuses@, key@), key@, "docker"@, service.name@, repo_view(repo), project.root@, docker_extra(), 0);
        }
        let ghost v1 = value;
        match &service.note {
            Some(note) => {
                insert(&mut value, "manifest_note", text(note.as_str()));
                proof {
                    lemma_spelled_kept(v1, value, "manifest_note"@, status_or_down(statuses@, key@), key@, "docker"@, service.name@, repo_view(repo), project.root@, docker_extra(), 1);
                }
            },
            None => {
                proof {
                    let st = status_or_down(statuses@, key@);
                    assert(!st.wire_keys().contains("manifest_note"@)) by {
                        if st.wire_keys().contains("manifest_note"@) {
                            let j = choose|j: int| 0 <= j < st.wire_keys().len() && st.wire_keys()[j] == "manifest_note"@;
                            assert(st.wire_keys()[j] == "manifest_note"@);
                        }
                    }
                    assert(get_spec(v0, "manifest_note"@) is None);
                    assert(get_spec(value, "manifest_note"@) == get_spec(v0, "manifest_note"@));
                }
            },
        }
        let ghost before = units@;
        units.push(value);
        assert forall|j: int| 0 <= j < i + 1 implies docker_unit_ok(#[trigger] units@[j], project.docker@[j], statuses@, repo_view(repo), project.root@) by {
            if j < i {
                assert(units@[j] == before[j]);
            }
        }
        i += 1;
    }
    let d = project.docker.len();
    let mut k: usize = 0;
    while k < project.local.len()
        invariant
            d == project.docker@.len(),
            k <= project.local@.len(),
            units@.len() == d + k,
            slot.dir_spec() == slot_dir(store.root_spec(), project_key_spec(project.root@)),
            forall|j: int| 0 <= j < d ==> docker_unit_ok(#[trigger] units@[j], project.docker@[j], statuses@, repo_view(repo), project.root@),
            forall|j: int| 0 <= j < k ==> local_unit_ok(
                #[trigger] units@[d + j],
                project.local@[j],
                statuses@,
                repo_view(repo),
                project.root@,
                unit_file(slot_dir(store.root_spec(), project_key_spec(project.root@)), "logs"@, key_spec("local"@, project.local@[j].name@), ".log"@),
                pid_of(pids@, key_spec("local"@, project.local@[j].name@)),
            ),
        decreases project.local.len() - k,
    {
        proof {
            lemma_document_names_differ();
        }
        let unit = &project.local[k];
        let key = crate::unit::key(crate::unit::LOCAL, unit.name.as_str());
        let mut value = spelled(crate::rows::lookup(statuses, key.as_str()), key.as_str(), crate::unit::LOCAL, unit.name.as_str(), repo, project.root.as_str());
        let ghost st = status_or_down(statuses@, key@);
        let ghost v0 = value;
        insert(&mut value, "cmd", crate::client::word_array(&unit.cmd));
        proof {
            lemma_spelled_kept(v0, value, "cmd"@, st, key@, "local"@, unit.name@, repo_view(repo), project.root@, local_extra(), 0);
        }
        let ghost v1 = value;
        insert(&mut value, "cwd", text(unit.cwd.as_str()));
        proof {
            lemma_spelled_kept(v1, value, "cwd"@, st, key@, "local"@, unit.name@, repo_view(repo), project.root@, local_extra(), 1);
        }
        let ghost v2 = value;
        let log = slot.log_path(key.as_str());
        insert(&mut value, "log", text(log.as_str()));
        proof {
            lemma_spelled_kept(v2, value, "log"@, st, key@, "local"@, unit.name@, repo_view(repo), project.root@, local_extra(), 2);
        }
        let ghost v3 = value;
        proof {
            assert(!st.wire_keys().contains("pid"@)) by {
                if st.wire_keys().contains("pid"@) {
                    let j = choose|j: int| 0 <= j < st.wire_keys().len() && st.wire_keys()[j] == "pid"@;
                    assert(st.wire_keys()[j] == "pid"@);
                }
            }
            assert(!st.wire_keys().contains("error"@)) by {
                if st.wire_keys().contains("error"@) {
                    let j = choose|j: int| 0 <= j < st.wire_keys().len() && st.wire_keys()[j] == "error"@;
                    assert(st.wire_keys()[j] == "error"@);
                }
            }
        }
        match find_pid(pids, key.as_str()) {
            Some(pid) => {
                insert(&mut value, "pid", Json::Num(Num::Pos(pid as u64)));
                proof {
                    lemma_spelled_kept(v3, value, "pid"@, st, key@, "local"@, unit.name@, repo_view(repo), project.root@, local_extra(), 3);
                }
            },
            None => {},
        }
        let ghost v4 = value;
        match &unit.problem {
            Some(problem) => {
                insert(&mut value, "error", text(problem.as_str()));
                proof {
                    lemma_spelled_kept(v4, value, "error"@, st, key@, "local"@, unit.name@, repo_view(repo), project.root@, local_extra(), 4);
                }
            },
            None => {},
        }
        proof {
            assert(get_spec(v0, "pid"@) is None);
            assert(get_spec(v0, "error"@) is None);
            if pid_of(pids@, key@) is None {
                assert(get_spec(value, "pid"@) == get_spec(v0, "pid"@));
            }
            if unit.problem is None {
                assert(get_spec(value, "error"@) == get_spec(v0, "error"@));
            }
        }
        let ghost before = units@;
        units.push(value);
        assert forall|j: int| 0 <= j < d implies docker_unit_ok(#[trigger] units@[j], project.docker@[j], statuses@, repo_view(repo), project.root@) by {
            assert(units@[j] == before[j]);
        }
        assert forall|j: int| 0 <= j < k + 1 implies local_unit_ok(
            #[trigger] units@[d + j],
            project.local@[j],
            statuses@,
            repo_view(repo),
            project.root@,
            unit_file(slot_dir(store.root_spec(), project_key_spec(project.root@)), "logs"@, key_spec("local"@, project.local@[j].name@), ".log"@),
            pid_of(pids@, key_spec("local"@, project.local@[j].name@)),
        ) by {
            if j < k {
                assert(units@[d + j] == before[d + j]);
            }
        }
        k += 1;
    }
    units
}


/// The repos whose manifests could be read, each under its include's name.
pub open spec fn readable_repos(included: Seq<Included>) -> Seq<(Seq<char>, Project)>
    decreases included.len(),
{
    if included.len() == 0 {
        Seq::empty()
    } else {
        let before = readable_repos(included.drop_last());
        match included.last().project {
            Ok(p) => before.push((included.last().name@, p)),
            Err(_) => before,
        }
    }
}

/// What is said of each repo whose manifest could not be read: its name and why.
pub open spec fn unreadable_repos(included: Seq<Included>) -> Seq<Seq<char>>
    decreases included.len(),
{
    if included.len() == 0 {
        Seq::empty()
    } else {
        let before = unreadable_repos(included.drop_last());
        match included.last().project {
            Ok(_) => before,
            Err(why) => before.push(included.last().name@ + ": "@ + why@),
        }
    }
}

/// The focused manifest, then every repo it includes under its own name. An include that could
/// not be read says so once, in `problems`, and contributes no units.
pub fn listed<'a>(view: &'a View, problems: &mut Vec<String>) -> (r: Vec<(Option<String>, &'a Project)>)
    ensures
        r@.len() >= 1,
        r@[0].0 is None,
        *r@[0].1 == view.focused_spec(),
        r@.subrange(1, r@.len() as int).map_values(|e: (Option<String>, &Project)| (e.0->0@, *e.1)) == readable_repos(view.included_spec()),
        forall|i: int| 1 <= i < r@.len() ==> (#[trigger] r@[i]).0 is Some,
        views(final(problems)@) == views(old(problems)@) + unreadable_repos(view.included_spec()),
{
    let mut r: Vec<(Option<String>, &'a Project)> = Vec::new();
    r.push((None, view.focused()));
    let included = view.included();
    let ghost start = views(problems@);
    let mut i: usize = 0;
    while i < included.len()
        invariant
            i <= included@.len(),
            included@ == view.included_spec(),
            r@.len() >= 1,
            r@[0].0 is None,
            *r@[0].1 == view.focused_spec(),
            r@.subrange(1, r@.len() as int).map_values(|e: (Option<String>, &Project)| (e.0->0@, *e.1)) == readable_repos(included@.subrange(0, i as int)),
            forall|j: int| 1 <= j < r@.len() ==> (#[trigger] r@[j]).0 is Some,
            views(problems@) == start + unreadable_repos(included@.subrange(0, i as int)),
        decreases included.len() - i,
    {
        assert(included@.subrange(0, i as int + 1).drop_last() =~= included@.subrange(0, i as int));
        assert(included@.subrange(0, i as int + 1).last() == included@[i as int]);
        let entry = &included[i];
        match &entry.project {
            Ok(p) => {
                let ghost before = r@;
                r.push((Some(entry.name.clone()), p));
                assert(r@.subrange(1, r@.len() as int) =~= before.subrange(1, before.len() as int).push((Some(entry.name), p)));
                assert(r@.subrange(1, r@.len() as int).map_values(|e: (Option<String>, &Project)| (e.0->0@, *e.1)) =~= before.subrange(1, before.len() as int).map_values(|e: (Option<String>, &Project)| (e.0->0@, *e.1)).push((entry.name@, *p)));
            },
            Err(why) => {
                let ghost before = problems@;
                let mut said = entry.name.clone();
                said.append(": ");
                said.append(why.as_str());
                problems.push(said);
                assert(views(problems@) =~= views(before).push(said@));
            },
        }
        i += 1;
    }
    assert(included@.subrange(0, included@.len() as int) =~= included@);
    r
}

/// How the agent names a project: its name, its root, its manifest.
pub fn named(project: &Project) -> (r: Json)
    ensures
        keys_of(r) == seq!["name"@, "path"@, "manifest"@],
        said(r, "name"@) == Some(project.name@),
        said(r, "path"@) == Some(project.root@),
        said(r, "manifest"@) == Some(project.manifest@),
{
    proof {
        lemma_document_names_differ();
    }
    triple("name", text(project.name.as_str()), "path", text(project.root.as_str()), "manifest", text(project.manifest.as_str()))
}

/// Strings as a JSON array.
fn texts(words: &Vec<String>) -> (r: Json)
    ensures
        crate::daemon::strings_spec(Some(r)) == views(words@),
        r is Array,
{
    crate::client::word_array(words)
}

/// What a status call prints: the project, the daemon when one answered, every unit, and every
/// problem met along the way.
pub fn status_document(project: &Project, daemon: Option<&crate::client::Peer>, units: Vec<Json>, problems: &Vec<String>) -> (r: Json)
    ensures
        keys_of(r) == seq!["project"@, "daemon"@, "units"@, "problems"@],
        match get_spec(r, "project"@) {
            Some(p) => said(p, "name"@) == Some(project.name@) && said(p, "path"@) == Some(project.root@) && said(p, "manifest"@) == Some(project.manifest@),
            None => false,
        },
        match daemon {
            Some(peer) => match get_spec(r, "daemon"@) {
                Some(d) => keys_of(d) == seq!["version"@, "pid"@] && said(d, "version"@) == Some(peer.version@) && get_spec(d, "pid"@) == Some(Json::Num(Num::Pos(peer.pid as u64))),
                None => false,
            },
            None => get_spec(r, "daemon"@) == Some(Json::Null),
        },
        get_spec(r, "units"@) == Some(Json::Array(units)),
        crate::daemon::strings_spec(get_spec(r, "problems"@)) == views(problems@),
{
    proof {
        lemma_document_names_differ();
    }
    let d = match daemon {
        Some(peer) => crate::json::pair("version", text(peer.version.as_str()), "pid", Json::Num(Num::Pos(peer.pid as u64))),
        None => Json::Null,
    };
    let members = vec![
        (String::from_str("project"), named(project)),
        (String::from_str("daemon"), d),
        (String::from_str("units"), Json::Array(units)),
        (String::from_str("problems"), texts(problems)),
    ];
    proof {
        crate::json::lemma_member(members@, "project"@, 0);
        crate::json::lemma_member(members@, "daemon"@, 1);
        crate::json::lemma_member(members@, "units"@, 2);
        crate::json::lemma_member(members@, "problems"@, 3);
        assert(members@.map_values(|m: (String, Json)| m.0@) =~= seq!["project"@, "daemon"@, "units"@, "problems"@]);
    }
    Json::Object(members)
}

/// A verb needs a unit to act on.
pub fn selectors_named(act: Act, selectors: &Vec<String>) -> (r: Result<(), String>)
    ensures
        selectors@.len() > 0 <==> r is Ok,
        r matches Err(e) ==> e@ == act.label_spec() + ": name at least one unit"@,
{
    if selectors.len() == 0 {
        let mut e = String::from_str(act.label());
        e.append(": name at least one unit");
        return Err(e);
    }
    Ok(())
}

/// How one selector fared: the note it was answered with, or why it was refused.
pub fn outcome(selector: &str, answer: Result<Option<String>, String>) -> (r: Json)
    ensures
        said(r, "unit"@) == Some(selector@),
        match answer {
            Ok(note) => get_spec(r, "ok"@) == Some(Json::Bool(true)) && match note {
                Some(n) => said(r, "note"@) == Some(n@),
                None => get_spec(r, "note"@) == Some(Json::Null),
            },
            Err(why) => get_spec(r, "ok"@) == Some(Json::Bool(false)) && said(r, "error"@) == Some(why@),
        },
{
    proof {
        lemma_document_names_differ();
    }
    match answer {
        Ok(note) => {
            let n = match note {
                Some(n) => Json::Str(n),
                None => Json::Null,
            };
            triple("unit", text(selector), "ok", Json::Bool(true), "note", n)
        },
        Err(why) => triple("unit", text(selector), "ok", Json::Bool(false), "error", Json::Str(why)),
    }
}

/// What a verb prints: what it did, how each selector fared, and the problems met.
pub fn control_document(act: Act, results: Vec<Json>, problems: &Vec<String>) -> (r: Json)
    ensures
        said(r, "action"@) == Some(act.label_spec()),
        get_spec(r, "results"@) == Some(Json::Array(results)),
        crate::daemon::strings_spec(get_spec(r, "problems"@)) == views(problems@),
{
    proof {
        lemma_document_names_differ();
    }
    triple("action", text(act.label()), "results", Json::Array(results), "problems", texts(problems))
}

/// Whether any unit is a local one with a pid, the only kind a port reading is joined on.
pub open spec fn wants_port(unit: Json) -> bool {
    said(unit, "kind"@) == Some("local"@) && u64_spec(get_spec(unit, "pid"@)) is Some
}

pub fn wants_ports(units: &Vec<Json>) -> (r: bool)
    ensures
        r == exists|i: int| 0 <= i < units@.len() && wants_port(#[trigger] units@[i]),
{
    let mut i: usize = 0;
    while i < units.len()
        invariant
            i <= units@.len(),
            forall|j: int| 0 <= j < i ==> !wants_port(#[trigger] units@[j]),
        decreases units.len() - i,
    {
        let unit = &units[i];
        let local = match crate::json::as_str(get(unit, "kind")) {
            Some(k) => str_eq(k, crate::unit::LOCAL),
            None => false,
        };
        if local && crate::json::as_u64(get(unit, "pid")).is_some() {
            assert(wants_port(units@[i as int]));
            return true;
        }
        i += 1;
    }
    false
}

/// The ports a listener table holds for `pid`: the first entry for it.
pub open spec fn ports_for(listeners: Seq<(u32, Vec<u16>)>, pid: u32) -> Option<Seq<u16>>
    decreases listeners.len(),
{
    if listeners.len() == 0 {
        None
    } else {
        match ports_for(listeners.drop_last(), pid) {
            Some(p) => Some(p),
            None => if listeners.last().0 == pid {
                Some(listeners.last().1@)
            } else {
                None
            },
        }
    }
}

fn find_ports(listeners: &Vec<(u32, Vec<u16>)>, pid: u32) -> (r: Option<Json>)
    ensures
        match (r, ports_for(listeners@, pid)) {
            (Some(Json::Array(items)), Some(ports)) => items@ == ports.map_values(|p: u16| Json::Num(Num::Pos(p as u64))),
            (None, None) => true,
            _ => false,
        },
{
    let mut i: usize = 0;
    while i < listeners.len()
        invariant
            i <= listeners@.len(),
            ports_for(listeners@.subrange(0, i as int), pid) is None,
        decreases listeners.len() - i,
    {
        assert(listeners@.subrange(0, i as int + 1).drop_last() =~= listeners@.subrange(0, i as int));
        if listeners[i].0 == pid {
            proof {
                lemma_ports_for_found(listeners@, pid, i as int + 1);
            }
            let found = &listeners[i].1;
            let mut items: Vec<Json> = Vec::new();
            let mut k: usize = 0;
            while k < found.len()
                invariant
                    k <= found@.len(),
                    items@ == found@.subrange(0, k as int).map_values(|p: u16| Json::Num(Num::Pos(p as u64))),
                decreases found.len() - k,
            {
                items.push(Json::Num(Num::Pos(found[k] as u64)));
                assert(items@ =~= found@.subrange(0, k as int + 1).map_values(|p: u16| Json::Num(Num::Pos(p as u64))));
                k += 1;
            }
            assert(found@.subrange(0, found@.len() as int) =~= found@);
            return Some(Json::Array(items));
        }
        i += 1;
    }
    assert(listeners@.subrange(0, listeners@.len() as int) =~= listeners@);
    None
}

proof fn lemma_ports_for_found(listeners: Seq<(u32, Vec<u16>)>, pid: u32, k: int)
    requires
        0 < k <= listeners.len(),
        ports_for(listeners.subrange(0, k - 1), pid) is None,
        listeners[k - 1].0 == pid,
    ensures
        ports_for(listeners, pid) == Some(listeners[k - 1].1@),
    decreases listeners.len() - k,
{
    assert(listeners.subrange(0, k).drop_last() =~= listeners.subrange(0, k - 1));
    if k < listeners.len() {
        lemma_ports_for_prefix(listeners, pid, k);
    } else {
        assert(listeners.subrange(0, k) =~= listeners);
    }
}

proof fn lemma_ports_for_prefix(listeners: Seq<(u32, Vec<u16>)>, pid: u32, k: int)
    requires
        0 <= k <= listeners.len(),
        ports_for(listeners.subrange(0, k), pid) is Some,
    ensures
        ports_for(listeners, pid) == ports_for(listeners.subrange(0, k), pid),
    decreases listeners.len() - k,
{
    if k < listeners.len() {
        assert(listeners.subrange(0, k + 1).drop_last() =~= listeners.subrange(0, k));
        lemma_ports_for_prefix(listeners, pid, k + 1);
    } else {
        assert(listeners.subrange(0, k) =~= listeners);
    }
}

/// Every local unit with a pid that a port reading found listening gets the ports it listens on;
/// every other unit keeps what it had, an empty list for a local unit nothing was found for.
pub fn attach_local_ports(units: &mut Vec<Json>, listeners: &Vec<(u32, Vec<u16>)>)
    ensures
        final(units)@.len() == old(units)@.len(),
        forall|i: int| 0 <= i < old(units)@.len() ==> ({
            let before = #[trigger] old(units)@[i];
            let after = final(units)@[i];
            if wants_port(before) && before is Object && ports_for(listeners@, u64_spec(get_spec(before, "pid"@))->0 as u32) is Some {
                (get_spec(after, "ports"@) matches Some(Json::Array(items)) && items@ == ports_for(
                    listeners@,
                    u64_spec(get_spec(before, "pid"@))->0 as u32,
                )->0.map_values(|p: u16| Json::Num(Num::Pos(p as u64)))) && forall|k: Seq<char>| k != "ports"@ ==> #[trigger] get_spec(after, k) == get_spec(before, k)
            } else {
                after == before
            }
        }),
{
    let mut i: usize = 0;
    while i < units.len()
        invariant
            i <= units@.len(),
            units@.len() == old(units)@.len(),
            forall|j: int| i <= j < units@.len() ==> units@[j] == old(units)@[j],
            forall|j: int| 0 <= j < i ==> ({
                let before = #[trigger] old(units)@[j];
                let after = units@[j];
                if wants_port(before) && before is Object && ports_for(listeners@, u64_spec(get_spec(before, "pid"@))->0 as u32) is Some {
                    (get_spec(after, "ports"@) matches Some(Json::Array(items)) && items@ == ports_for(
                        listeners@,
                        u64_spec(get_spec(before, "pid"@))->0 as u32,
                    )->0.map_values(|p: u16| Json::Num(Num::Pos(p as u64)))) && forall|k: Seq<char>| k != "ports"@ ==> #[trigger] get_spec(after, k) == get_spec(before, k)
                } else {
                    after == before
                }
            }),
        decreases units.len() - i,
    {
        let local = match crate::json::as_str(get(&units[i], "kind")) {
            Some(k) => str_eq(k, crate::unit::LOCAL),
            None => false,
        };
        let pid = crate::json::as_u64(get(&units[i], "pid"));
        let is_object = match &units[i] {
            Json::Object(_) => true,
            _ => false,
        };
        if local && is_object {
            match pid {
                Some(p) => match find_ports(listeners, p as u32) {
                    Some(ports) => {
                        let mut unit = Json::Null;
                        let ghost before = units@;
                        std::mem::swap(&mut unit, &mut units[i]);
                        proof {
                            assert(unit == before[i as int]);
                        }
                        let ghost was = unit;
                        insert(&mut unit, "ports", ports);
                        units.set(i, unit);
                        proof {
                            assert forall|j: int| 0 <= j < i implies units@[j] == before[j] by {}
                        }
                    },
                    None => {},
                },
                None => {},
            }
        }
        i += 1;
    }
}

} // verus!

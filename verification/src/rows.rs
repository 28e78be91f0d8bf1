//! One row per unit, six columns wide: state glyph, name, kind, state label, uptime-or-exit, note.
//!
//! The last three columns are the daemon's answer, keyed by unit key. A unit the daemon has never
//! heard of is `down` if it is ours to run and blank if it is docker's, whose liveness is read live
//! from compose rather than from anything here.

use vstd::prelude::*;
use vstd::string::*;

use crate::manifest::{DockerService, LocalUnit, Project};
use crate::supervisor::status_view;
use crate::text::{str_eq, starts_with};
use crate::unit::{key_spec, Claim, State, Status};
use crate::view::Owner;

verus! {

pub const UNKNOWN_GLYPH: &'static str = "·";
pub const COLLAPSED_GLYPH: &'static str = "▸";
pub const EXPANDED_GLYPH: &'static str = "▾";

pub const EMPTY_HEADLINE: &'static str = "No manifest here";
pub const EMPTY_BODY: &'static str = "Nothing above the focused pane holds a .herdr-dev.toml.";
pub const EMPTY_HINT: &'static str = "Press g to split a pane, start an agent and have it write one.";

#[derive(Debug, Clone, PartialEq, Eq)]
pub struct Row {
    pub glyph: &'static str,
    pub name: String,
    pub kind: &'static str,
    pub state: String,
    pub timing: String,
    pub note: String,
    /// The manifest this row came from, so a verb, a log and a state key all reach the project that
    /// owns the unit rather than the one being looked at.
    pub owner: Owner,
    /// Set on the units of an expanded repo: they belong to something one level in.
    pub indent: bool,
    /// A collapsed repo stands for a whole manifest of its own, so no verb reaches it.
    pub repo: bool,
}

/// What the daemon last said about `key`: the last word about it wins.
pub open spec fn status_of(statuses: Seq<(String, Status)>, key: Seq<char>) -> Option<Status>
    decreases statuses.len(),
{
    if statuses.len() == 0 {
        None
    } else if statuses.last().0@ == key {
        Some(statuses.last().1)
    } else {
        status_of(statuses.drop_last(), key)
    }
}

pub fn lookup<'a>(statuses: &'a Vec<(String, Status)>, key: &str) -> (r: Option<&'a Status>)
    ensures
        match (r, status_of(statuses@, key@)) {
            (Some(s), Some(t)) => *s == t,
            (None, None) => true,
            _ => false,
        },
{
    let mut k = statuses.len();
    assert(statuses@.subrange(0, k as int) =~= statuses@);
    while k > 0
        invariant
            k <= statuses@.len(),
            status_of(statuses@, key@) == status_of(statuses@.subrange(0, k as int), key@),
        decreases k,
    {
        assert(statuses@.subrange(0, k as int).drop_last() =~= statuses@.subrange(0, k - 1));
        assert(statuses@.subrange(0, k as int).last() == statuses@[k - 1]);
        if str_eq(statuses[k - 1].0.as_str(), key) {
            return Some(&statuses[k - 1].1);
        }
        k -= 1;
    }
    None
}

/// A row as plain values: glyph, name, kind, state, timing, note, owner, indent, repo.
pub type RowView = (Seq<char>, Seq<char>, Seq<char>, Seq<char>, Seq<char>, Seq<char>, Owner, bool, bool);

pub open spec fn row_view(r: Row) -> RowView {
    (r.glyph@, r.name@, r.kind@, r.state@, r.timing@, r.note@, r.owner, r.indent, r.repo)
}

pub open spec fn rows_view(rows: Seq<Row>) -> Seq<RowView> {
    rows.map_values(|r: Row| row_view(r))
}

pub open spec fn opt_text(o: Option<String>) -> Option<Seq<char>> {
    match o {
        Some(s) => Some(s@),
        None => None,
    }
}

/// A docker service's row: blank until compose has said something, and what the state itself has
/// to say outranks the manifest's standing note.
pub open spec fn docker_row(service: DockerService, statuses: Seq<(String, Status)>, owner: Owner, indent: bool) -> RowView {
    let found = status_of(statuses, key_spec("docker"@, service.name@));
    let note = match (match found {
        Some(status) => opt_text(status.note),
        None => None,
    }) {
        Some(n) => n,
        None => match opt_text(service.note) {
            Some(n) => n,
            None => Seq::empty(),
        },
    };
    match found {
        Some(status) => (
            status.state.glyph_spec(),
            service.name@,
            "docker"@,
            status.state.label_spec(),
            status.timing_spec(),
            note,
            owner,
            indent,
            false,
        ),
        None => ("·"@, service.name@, "docker"@, Seq::empty(), Seq::empty(), note, owner, indent, false),
    }
}

/// A local unit's row: `down` until the daemon says otherwise; a unit that cannot be run says so,
/// and a claim only matters for one that can.
pub open spec fn local_row(unit: LocalUnit, statuses: Seq<(String, Status)>, owner: Owner, indent: bool) -> RowView {
    let status = match status_of(statuses, key_spec("local"@, unit.name@)) {
        Some(s) => s,
        None => Status::bare(State::Down),
    };
    (
        status.state.glyph_spec(),
        unit.name@,
        "local"@,
        status.state.label_spec(),
        status.timing_spec(),
        match (unit.problem, status.held) {
            (Some(problem), _) => problem@,
            (None, Some(claim)) => claim.label_spec(),
            (None, None) => Seq::empty(),
        },
        owner,
        indent,
        false,
    )
}

/// The rows one manifest contributes: its own services, then its own processes.
pub open spec fn unit_rows_spec(project: Project, statuses: Seq<(String, Status)>, owner: Owner, indent: bool) -> Seq<RowView> {
    project.docker@.map_values(|s: DockerService| docker_row(s, statuses, owner, indent)) + project.local@.map_values(
        |u: LocalUnit| local_row(u, statuses, owner, indent),
    )
}

/// The columns a status paints.
pub open spec fn painted(row: Row, name: Seq<char>, kind: Seq<char>, status: Status, owner: Owner, indent: bool) -> bool {
    &&& row.glyph@ == status.state.glyph_spec()
    &&& row.name@ == name
    &&& row.kind@ == kind
    &&& row.state@ == status.state.label_spec()
    &&& row.timing@ == status.timing_spec()
    &&& row.owner == owner
    &&& row.indent == indent
    &&& !row.repo
}

fn paint(name: &String, kind: &'static str, status: &Status, owner: Owner, indent: bool) -> (r: Row)
    ensures
        painted(r, name@, kind@, *status, owner, indent),
        r.note@ == Seq::<char>::empty(),
{
    Row {
        glyph: status.state.glyph(),
        name: name.clone(),
        kind,
        state: String::from_str(status.state.label()),
        timing: status.timing(),
        note: String::new(),
        owner,
        indent,
        repo: false,
    }
}

/// The rows one manifest contributes: its own services, then its own processes, and never its
/// includes.
pub fn unit_rows(project: &Project, statuses: &Vec<(String, Status)>, owner: Owner, indent: bool) -> (r: Vec<Row>)
    ensures
        rows_view(r@) == unit_rows_spec(*project, statuses@, owner, indent),
{
    proof {
        reveal_strlit("docker");
        reveal_strlit("local");
        reveal_strlit("·");
    }
    let mut rows: Vec<Row> = Vec::new();
    let mut i: usize = 0;
    while i < project.docker.len()
        invariant
            i <= project.docker@.len(),
            rows@.len() == i,
            forall|j: int| 0 <= j < i ==> row_view(#[trigger] rows@[j]) == docker_row(project.docker@[j], statuses@, owner, indent),
        decreases project.docker.len() - i,
    {
        let service = &project.docker[i];
        let key = crate::unit::key(crate::unit::DOCKER, service.name.as_str());
        let found = lookup(statuses, key.as_str());
        let mut row = match found {
            Some(status) => paint(&service.name, crate::unit::DOCKER, status, owner, indent),
            None => Row {
                glyph: UNKNOWN_GLYPH,
                name: service.name.clone(),
                kind: crate::unit::DOCKER,
                state: String::new(),
                timing: String::new(),
                note: String::new(),
                owner,
                indent,
                repo: false,
            },
        };
        let said = match found {
            Some(status) => match &status.note {
                Some(n) => Some(n.clone()),
                None => None,
            },
            None => None,
        };
        row.note = match said {
            Some(n) => n,
            None => match &service.note {
                Some(n) => n.clone(),
                None => String::new(),
            },
        };
        rows.push(row);
        i += 1;
    }
    let mut k: usize = 0;
    while k < project.local.len()
        invariant
            k <= project.local@.len(),
            rows@.len() == project.docker@.len() + k,
            forall|j: int| 0 <= j < project.docker@.len() ==> row_view(#[trigger] rows@[j]) == docker_row(project.docker@[j], statuses@, owner, indent),
            forall|j: int| 0 <= j < k ==> row_view(#[trigger] rows@[project.docker@.len() + j]) == local_row(project.local@[j], statuses@, owner, indent),
        decreases project.local.len() - k,
    {
        let unit = &project.local[k];
        let key = crate::unit::key(crate::unit::LOCAL, unit.name.as_str());
        let fallback = Status::of(State::Down);
        let status = match lookup(statuses, key.as_str()) {
            Some(s) => s,
            None => &fallback,
        };
        let mut row = paint(&unit.name, crate::unit::LOCAL, status, owner, indent);
        row.note = match (&unit.problem, &status.held) {
            (Some(problem), _) => problem.clone(),
            (None, Some(claim)) => claim.label(),
            (None, None) => String::new(),
        };
        let ghost before = rows@;
        rows.push(row);
        assert(rows@[project.docker@.len() + k as int] == row);
        assert forall|j: int| 0 <= j < project.docker@.len() implies row_view(#[trigger] rows@[j]) == docker_row(project.docker@[j], statuses@, owner, indent) by {
            assert(rows@[j] == before[j]);
        }
        assert forall|j: int| 0 <= j < k + 1 implies row_view(#[trigger] rows@[project.docker@.len() + j]) == local_row(project.local@[j], statuses@, owner, indent) by {
            if j < k {
                assert(rows@[project.docker@.len() + j] == before[project.docker@.len() + j]);
            }
        }
        k += 1;
    }
    proof {
        let want = unit_rows_spec(*project, statuses@, owner, indent);
        let d = project.docker@.len();
        assert forall|j: int| 0 <= j < rows@.len() implies rows_view(rows@)[j] == want[j] by {
            if j < d {
                assert(row_view(rows@[j]) == docker_row(project.docker@[j], statuses@, owner, indent));
            } else {
                let m = j - d;
                assert(row_view(rows@[d + m]) == local_row(project.local@[m], statuses@, owner, indent));
            }
        }
        assert(rows_view(rows@) =~= want);
    }
    rows
}

/// A path as a heading shows it: under the home directory it is spelled from `~`.
pub open spec fn contract_spec(path: Seq<char>, home: Seq<char>) -> Seq<char> {
    if home.len() > 0 && path == home {
        "~/"@
    } else if home.len() > 0 && path.len() > home.len() && path.take(home.len() as int) == home
        && path[home.len() as int] == '/' {
        "~/"@ + path.skip(home.len() as int + 1)
    } else {
        path
    }
}

pub fn contract_home(path: &str, home: &str) -> (r: String)
    ensures
        r@ == contract_spec(path@, home@),
{
    proof {
        reveal_strlit("~/");
    }
    let n = home.unicode_len();
    let p = path.unicode_len();
    if n > 0 && str_eq(path, home) {
        return String::from_str("~/");
    }
    if n > 0 && p > n && starts_with(path, home) && path.get_char(n) == '/' {
        let mut r = String::from_str("~/");
        r.append(path.substring_char(n + 1, p));
        assert(path@.subrange(n + 1, p as int) =~= path@.skip(n + 1));
        return r;
    }
    String::from_str(path)
}

/// The heading a project is shown under.
pub fn title(project: &Project, home: &str) -> (r: String)
    ensures
        r@ == contract_spec(project.root@, home@),
{
    contract_home(project.root.as_str(), home)
}

} // verus!

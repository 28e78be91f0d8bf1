//! What the popup is looking at: the project the key resolved to, plus the sibling repos its
//! manifest names, one collapsed row each, unfolded into that repo's own units.
//!
//! **One level.** An include inside an included manifest is never followed.

use vstd::prelude::*;
use vstd::string::*;
use vstd::view::View as ModelOf;

use crate::manifest::{Include, LoadError, Project};
use crate::rows::{row_view, rows_view, status_of, unit_rows, unit_rows_spec, Row, RowView};
use crate::text::{decimal, decimal_string, str_eq};
use crate::unit::Status;

verus! {

pub const NOT_A_REPO: &'static str = "↹ unfolds an included repo";

/// Which manifest a row came from.
#[derive(Debug, Clone, Copy, PartialEq, Eq, Structural)]
pub enum Owner {
    Focused,
    Included(usize),
}

/// One `[includes.*]` entry, resolved: either the repo's own manifest or the reason there is
/// nothing to unfold.
#[derive(Debug)]
pub struct Included {
    pub name: String,
    pub path: String,
    pub project: Result<Project, String>,
}

pub struct View {
    focused: Project,
    included: Vec<Included>,
    expanded: Vec<bool>,
}

/// What looking at an included repo's directory found.
#[derive(Debug)]
pub enum Looked {
    /// Nothing is there.
    Absent,
    /// Something is there, but not a directory.
    NotADirectory,
    /// A directory without a manifest in it.
    NoManifest,
    /// The manifest there, loaded or not.
    Manifest(Result<Project, LoadError>),
}

/// An included repo as a row shows it: its project, or why there is nothing to unfold, the
/// directory named as the user would type it.
pub fn included_repo(path: &str, home: &str, looked: Looked) -> (r: Result<Project, String>)
    ensures
        match looked {
            Looked::Absent => r matches Err(e) && e@ == "no repo at "@ + crate::rows::contract_spec(path@, home@),
            Looked::NotADirectory => r matches Err(e) && e@ == "not a directory: "@ + crate::rows::contract_spec(path@, home@),
            Looked::NoManifest => r matches Err(e) && e@ == "no .herdr-dev.toml in "@ + crate::rows::contract_spec(path@, home@),
            Looked::Manifest(Ok(p)) => r == Ok::<Project, String>(p),
            Looked::Manifest(Err(error)) => r matches Err(e) && e@ == "broken .herdr-dev.toml: "@ + error.terse_spec(),
        },
{
    match looked {
        Looked::Manifest(Ok(p)) => Ok(p),
        Looked::Manifest(Err(error)) => {
            let mut e = String::from_str("broken .herdr-dev.toml: ");
            let t = error.terse();
            e.append(t.as_str());
            Err(e)
        },
        other => {
            let shown = crate::rows::contract_home(path, home);
            let mut e = match other {
                Looked::Absent => String::from_str("no repo at "),
                Looked::NotADirectory => String::from_str("not a directory: "),
                _ => String::from_str("no .herdr-dev.toml in "),
            };
            e.append(shown.as_str());
            Err(e)
        },
    }
}

/// The first include before the `i`-th that names the same repo.
pub open spec fn first_same(includes: Seq<Include>, i: int) -> Option<int>
    decreases i,
{
    if i <= 0 {
        None
    } else {
        match first_same(includes, i - 1) {
            Some(j) => Some(j),
            None => if includes[i - 1].path@ == includes[i].path@ && first_before(includes, i - 1, includes[i].path@) is None {
                Some(i - 1)
            } else {
                None
            },
        }
    }
}

/// The first include before position `i` whose path is `path`.
pub open spec fn first_before(includes: Seq<Include>, i: int, path: Seq<char>) -> Option<int>
    decreases i,
{
    if i <= 0 {
        None
    } else {
        match first_before(includes, i - 1, path) {
            Some(j) => Some(j),
            None => if includes[i - 1].path@ == path {
                Some(i - 1)
            } else {
                None
            },
        }
    }
}

/// Why the `i`-th include has nothing to unfold before its directory is even looked at: it is the
/// project itself, or the same repo as one above it.
pub open spec fn refusal(focused: Project, i: int) -> Option<Seq<char>> {
    let includes = focused.includes@;
    if includes[i].path@ == focused.root@ {
        Some("this project itself, so there is nothing to unfold"@)
    } else {
        match first_before(includes, i, includes[i].path@) {
            Some(j) => Some("the same repo as `"@ + includes[j].name@ + "` above"@),
            None => None,
        }
    }
}

/// The statuses the daemon gave for one manifest: the last word wins, and none is nothing.
pub open spec fn statuses_for(statuses: Seq<(Owner, Vec<(String, Status)>)>, owner: Owner) -> Seq<(String, Status)>
    decreases statuses.len(),
{
    if statuses.len() == 0 {
        Seq::empty()
    } else if statuses.last().0 == owner {
        statuses.last().1@
    } else {
        statuses_for(statuses.drop_last(), owner)
    }
}

/// `count` things, singular for one.
pub open spec fn counted_spec(count: nat, one: Seq<char>, many: Seq<char>) -> Seq<char> {
    if count == 1 {
        "1 "@ + one
    } else {
        decimal(count) + " "@ + many
    }
}

pub fn counted(count: usize, one: &str, many: &str) -> (r: String)
    ensures
        r@ == counted_spec(count as nat, one@, many@),
{
    if count == 1 {
        let mut r = String::from_str("1 ");
        r.append(one);
        r
    } else {
        let mut r = decimal_string(count as u64);
        r.append(" ");
        r.append(many);
        r
    }
}

/// What a collapsed row says is inside, counted from the included manifest itself.
pub open spec fn summary_spec(project: Project) -> Seq<char> {
    let services = project.docker@.len();
    let processes = project.local@.len();
    let inside = if services > 0 && processes > 0 {
        counted_spec(services, "service"@, "services"@) + " + "@ + counted_spec(
            processes,
            "process"@,
            "processes"@,
        ) + ", from its own config"@
    } else if services > 0 {
        counted_spec(services, "service"@, "services"@) + ", from its own config"@
    } else if processes > 0 {
        counted_spec(processes, "process"@, "processes"@) + ", from its own config"@
    } else {
        "nothing to run, from its own config"@
    };
    if project.includes@.len() > 0 {
        inside + "; its own "@ + counted_spec(
            project.includes@.len(),
            "include is"@,
            "includes are"@,
        ) + " not followed"@
    } else {
        inside
    }
}

pub fn summary(project: &Project) -> (r: String)
    ensures
        r@ == summary_spec(*project),
{
    let services = project.docker.len();
    let processes = project.local.len();
    let mut note = if services > 0 && processes > 0 {
        let mut n = counted(services, "service", "services");
        n.append(" + ");
        let p = counted(processes, "process", "processes");
        n.append(p.as_str());
        n.append(", from its own config");
        n
    } else if services > 0 {
        let mut n = counted(services, "service", "services");
        n.append(", from its own config");
        n
    } else if processes > 0 {
        let mut n = counted(processes, "process", "processes");
        n.append(", from its own config");
        n
    } else {
        String::from_str("nothing to run, from its own config")
    };
    if project.includes.len() > 0 {
        note.append("; its own ");
        let c = counted(project.includes.len(), "include is", "includes are");
        note.append(c.as_str());
        note.append(" not followed");
    }
    note
}

/// The row an included repo gets: no kind and no state, and the note says what is inside.
pub open spec fn repo_row_spec(name: Seq<char>, project: Result<Project, String>, expanded: bool, owner: Owner) -> RowView {
    (
        if expanded {
            "▾"@
        } else {
            "▸"@
        },
        name,
        ""@,
        Seq::empty(),
        Seq::empty(),
        match project {
            Ok(p) => summary_spec(p),
            Err(why) => why@,
        },
        owner,
        false,
        true,
    )
}

fn repo_row(included: &Included, expanded: bool, owner: Owner) -> (r: Row)
    ensures
        row_view(r) == repo_row_spec(included.name@, included.project, expanded, owner),
{
    proof {
        reveal_strlit("▾");
        reveal_strlit("▸");
        reveal_strlit("");
    }
    Row {
        glyph: if expanded {
            crate::rows::EXPANDED_GLYPH
        } else {
            crate::rows::COLLAPSED_GLYPH
        },
        name: included.name.clone(),
        kind: "",
        state: String::new(),
        timing: String::new(),
        note: match &included.project {
            Ok(project) => summary(project),
            Err(why) => why.clone(),
        },
        owner,
        indent: false,
        repo: true,
    }
}

/// The rows of every included repo from position `i` on: its own row, then its units when it is
/// unfolded and has a manifest.
pub open spec fn included_rows(
    included: Seq<Included>,
    expanded: Seq<bool>,
    statuses: Seq<(Owner, Vec<(String, Status)>)>,
    i: nat,
) -> Seq<RowView>
    decreases included.len() - i,
{
    if i >= included.len() {
        Seq::empty()
    } else {
        let owner = Owner::Included(i as usize);
        let inc = included[i as int];
        seq![repo_row_spec(inc.name@, inc.project, expanded[i as int], owner)] + match inc.project {
            Ok(p) if expanded[i as int] => unit_rows_spec(p, statuses_for(statuses, owner), owner, true),
            _ => Seq::empty(),
        } + included_rows(included, expanded, statuses, i + 1)
    }
}

fn find_statuses<'a>(statuses: &'a Vec<(Owner, Vec<(String, Status)>)>, owner: Owner) -> (r: Option<&'a Vec<(String, Status)>>)
    ensures
        match r {
            Some(v) => v@ == statuses_for(statuses@, owner),
            None => statuses_for(statuses@, owner) == Seq::<(String, Status)>::empty(),
        },
{
    let mut k = statuses.len();
    assert(statuses@.subrange(0, k as int) =~= statuses@);
    while k > 0
        invariant
            k <= statuses@.len(),
            statuses_for(statuses@, owner) == statuses_for(statuses@.subrange(0, k as int), owner),
        decreases k,
    {
        assert(statuses@.subrange(0, k as int).drop_last() =~= statuses@.subrange(0, k - 1));
        assert(statuses@.subrange(0, k as int).last() == statuses@[k - 1]);
        if statuses[k - 1].0 == owner {
            return Some(&statuses[k - 1].1);
        }
        k -= 1;
    }
    None
}

impl View {
    /// Every included repo has a fold of its own.
    pub open spec fn wf(&self) -> bool {
        self.expanded_spec().len() == self.included_spec().len()
    }

    pub closed spec fn focused_spec(&self) -> Project {
        self.focused
    }

    pub closed spec fn included_spec(&self) -> Seq<Included> {
        self.included@
    }

    pub closed spec fn expanded_spec(&self) -> Seq<bool> {
        self.expanded@
    }

    /// The view of `focused`, every include resolved: the project itself and a repeat of a repo
    /// above are refused here, and otherwise the include is what `read` says its directory held.
    pub fn of(focused: Project, read: Vec<Result<Project, String>>) -> (r: View)
        requires
            read@.len() == focused.includes@.len(),
        ensures
            r.wf(),
            r.focused_spec() == focused,
            r.included_spec().len() == focused.includes@.len(),
            r.expanded_spec().len() == focused.includes@.len(),
            forall|i: int| 0 <= i < focused.includes@.len() ==> {
                let inc = #[trigger] r.included_spec()[i];
                &&& inc.name@ == focused.includes@[i].name@
                &&& inc.path@ == focused.includes@[i].path@
                &&& match refusal(focused, i) {
                    Some(why) => inc.project matches Err(e) && e@ == why,
                    None => inc.project == read@[i],
                }
            },
            forall|i: int| 0 <= i < r.expanded_spec().len() ==> !#[trigger] r.expanded_spec()[i],
    {
        let mut included: Vec<Included> = Vec::new();
        let mut expanded: Vec<bool> = Vec::new();
        let mut read = read;
        let n = focused.includes.len();
        let ghost all = read@;
        let mut i: usize = 0;
        while i < n
            invariant
                n == focused.includes@.len(),
                i <= n,
                read@.len() == n,
                forall|j: int| i <= j < n ==> read@[j] == all[j],
                included@.len() == i,
                expanded@.len() == i,
                forall|j: int| 0 <= j < i ==> !#[trigger] expanded@[j],
                forall|j: int| 0 <= j < i ==> {
                    let inc = #[trigger] included@[j];
                    &&& inc.name@ == focused.includes@[j].name@
                    &&& inc.path@ == focused.includes@[j].path@
                    &&& match refusal(focused, j) {
                        Some(why) => inc.project matches Err(e) && e@ == why,
                        None => inc.project == all[j],
                    }
                },
            decreases n - i,
        {
            let entry = &focused.includes[i];
            let mut taken: Result<Project, String> = Err(String::new());
            std::mem::swap(&mut taken, &mut read[i]);
            let project = if str_eq(entry.path.as_str(), focused.root.as_str()) {
                Err(String::from_str("this project itself, so there is nothing to unfold"))
            } else {
                match earlier(&focused.includes, i) {
                    Some(j) => {
                        let mut why = String::from_str("the same repo as `");
                        why.append(focused.includes[j].name.as_str());
                        why.append("` above");
                        Err(why)
                    },
                    None => taken,
                }
            };
            included.push(Included { name: entry.name.clone(), path: entry.path.clone(), project });
            expanded.push(false);
            i += 1;
        }
        View { focused, included, expanded }
    }

    pub fn focused(&self) -> (r: &Project)
        ensures
            *r == self.focused_spec(),
    {
        &self.focused
    }

    /// The repos the focused manifest includes, each resolved.
    pub fn included(&self) -> (r: &Vec<Included>)
        ensures
            r@ == self.included_spec(),
    {
        &self.included
    }

    pub fn has_repos(&self) -> (r: bool)
        ensures
            r == (self.included_spec().len() > 0),
    {
        self.included.len() > 0
    }

    /// The manifest a row of `owner` belongs to.
    pub open spec fn project_spec(&self, owner: Owner) -> Option<Project> {
        match owner {
            Owner::Focused => Some(self.focused_spec()),
            Owner::Included(i) => if i < self.included_spec().len() {
                match self.included_spec()[i as int].project {
                    Ok(p) => Some(p),
                    Err(_) => None,
                }
            } else {
                None
            },
        }
    }

    /// The manifest a row belongs to; nothing for a repo whose manifest could not be read.
    pub fn project(&self, owner: Owner) -> (r: Option<&Project>)
        ensures
            match r {
                Some(p) => self.project_spec(owner) == Some(*p),
                None => self.project_spec(owner) is None,
            },
            match owner {
                Owner::Focused => r == Some(&self.focused_spec()),
                Owner::Included(i) => match r {
                    Some(p) => i < self.included_spec().len() && self.included_spec()[i as int].project == Ok::<Project, String>(*p),
                    None => i >= self.included_spec().len() || self.included_spec()[i as int].project is Err,
                },
            },
    {
        match owner {
            Owner::Focused => Some(&self.focused),
            Owner::Included(i) => {
                if i >= self.included.len() {
                    return None;
                }
                match &self.included[i].project {
                    Ok(p) => Some(p),
                    Err(_) => None,
                }
            },
        }
    }

    /// Every row, in the order they are drawn.
    pub fn rows(&self, statuses: &Vec<(Owner, Vec<(String, Status)>)>) -> (r: Vec<Row>)
        requires
            self.wf(),
        ensures
            rows_view(r@) == unit_rows_spec(
                self.focused_spec(),
                statuses_for(statuses@, Owner::Focused),
                Owner::Focused,
                false,
            ) + included_rows(self.included_spec(), self.expanded_spec(), statuses@, 0),
    {
        let nothing: Vec<(String, Status)> = Vec::new();
        let known = match find_statuses(statuses, Owner::Focused) {
            Some(v) => v,
            None => &nothing,
        };
        let mut rows = unit_rows(&self.focused, known, Owner::Focused, false);
        let ghost head = rows_view(rows@);
        let n = self.included.len();
        let mut i: usize = 0;
        while i < n
            invariant
                n == self.included@.len(),
                self.expanded@.len() == n,
                nothing@ == Seq::<(String, Status)>::empty(),
                i <= n,
                rows_view(rows@) + included_rows(self.included@, self.expanded@, statuses@, i as nat) == head + included_rows(self.included@, self.expanded@, statuses@, 0),
            decreases n - i,
        {
            let owner = Owner::Included(i);
            let inc = &self.included[i];
            let open_it = self.expanded[i];
            let ghost before = rows_view(rows@);
            let repo = repo_row(inc, open_it, owner);
            rows.push(repo);
            let ghost mid = rows_view(rows@);
            assert(mid =~= before.push(row_view(repo)));
            let ghost added: Seq<RowView> = match self.included@[i as int].project {
                Ok(p) if self.expanded@[i as int] => unit_rows_spec(p, statuses_for(statuses@, owner), owner, true),
                _ => Seq::empty(),
            };
            match &inc.project {
                Ok(p) => {
                    if open_it {
                        let known = match find_statuses(statuses, owner) {
                            Some(v) => v,
                            None => &nothing,
                        };
                        let mut more = unit_rows(p, known, owner, true);
                        let ghost extra = rows_view(more@);
                        rows.append(&mut more);
                        assert(rows_view(rows@) =~= mid + extra);
                        assert(extra == added);
                    } else {
                        assert(rows_view(rows@) =~= mid + added);
                    }
                },
                Err(_) => {
                    assert(rows_view(rows@) =~= mid + added);
                },
            }
            assert(rows_view(rows@) =~= mid + added);
            let ghost rest = included_rows(self.included@, self.expanded@, statuses@, (i + 1) as nat);
            assert(included_rows(self.included@, self.expanded@, statuses@, i as nat) == seq![row_view(repo)] + added + rest);
            assert(rows_view(rows@) + rest =~= before + (seq![row_view(repo)] + added + rest));
            i += 1;
        }
        rows
    }

    /// `↹` on a row: a repo with a manifest folds or unfolds; anything else says why nothing moved.
    pub fn toggle(&mut self, row: &Row) -> (r: Result<(), String>)
        requires
            old(self).wf(),
        ensures
            final(self).wf(),
            final(self).focused_spec() == old(self).focused_spec(),
            final(self).included_spec() == old(self).included_spec(),
            match row.owner {
                Owner::Included(i) if row.repo && i < old(self).included_spec().len() => match old(self).included_spec()[i as int].project {
                    Ok(_) => r is Ok && final(self).expanded_spec() == old(self).expanded_spec().update(
                        i as int,
                        !old(self).expanded_spec()[i as int],
                    ),
                    Err(why) => r matches Err(e) && e@ == why@ && final(self).expanded_spec()
                        == old(self).expanded_spec(),
                },
                _ => r matches Err(e) && e@ == "↹ unfolds an included repo"@ && final(self).expanded_spec() == old(self).expanded_spec(),
            },
    {
        proof {
            reveal_strlit("↹ unfolds an included repo");
        }
        let index = match row.owner {
            Owner::Focused => {
                return Err(String::from_str(NOT_A_REPO));
            },
            Owner::Included(index) => index,
        };
        if !row.repo || index >= self.included.len() {
            return Err(String::from_str(NOT_A_REPO));
        }
        match &self.included[index].project {
            Err(why) => {
                return Err(why.clone());
            },
            Ok(_) => {},
        }
        let now = self.expanded[index];
        self.expanded.set(index, !now);
        Ok(())
    }
}

/// The unfolded repos from position `i` on that have a manifest to show, with their owners.
pub open spec fn screen_from(included: Seq<Included>, expanded: Seq<bool>, i: nat) -> Seq<(Owner, Project)>
    decreases included.len() - i,
{
    if i >= included.len() {
        Seq::empty()
    } else {
        (match included[i as int].project {
            Ok(p) if expanded[i as int] => seq![(Owner::Included(i as usize), p)],
            _ => Seq::empty(),
        }) + screen_from(included, expanded, i + 1)
    }
}

/// The position of an owner among the includes; the focused project comes before all of them.
pub open spec fn owner_index(owner: Owner) -> int {
    match owner {
        Owner::Focused => -1,
        Owner::Included(j) => j as int,
    }
}

/// Whether included repo `j` is unfolded and has a manifest to show.
pub open spec fn shown_repo(included: Seq<Included>, expanded: Seq<bool>, j: int) -> bool {
    expanded[j] && included[j].project is Ok
}

/// How many included repos from position `i` on are unfolded and have a manifest to show.
pub open spec fn unfolded_count(included: Seq<Included>, expanded: Seq<bool>, i: nat) -> nat
    decreases included.len() - i,
{
    if i >= included.len() {
        0
    } else {
        (if shown_repo(included, expanded, i as int) { 1nat } else { 0nat }) + unfolded_count(included, expanded, i + 1)
    }
}

proof fn lemma_screen_from(included: Seq<Included>, expanded: Seq<bool>, i: nat)
    requires
        expanded.len() == included.len(),
        included.len() <= usize::MAX,
        i <= included.len(),
    ensures
        screen_from(included, expanded, i).len() == unfolded_count(included, expanded, i),
        forall|j: int| i <= j < included.len() && #[trigger] shown_repo(included, expanded, j) ==> screen_from(
            included,
            expanded,
            i,
        ).contains((Owner::Included(j as usize), included[j].project->Ok_0)),
        forall|k: int| 0 <= k < screen_from(included, expanded, i).len() ==> ({
            let e = #[trigger] screen_from(included, expanded, i)[k];
            e.0 matches Owner::Included(j) && i <= j < included.len() && shown_repo(included, expanded, j as int)
                && e.1 == included[j as int].project->Ok_0
        }),
        forall|k1: int, k2: int| 0 <= k1 < k2 < screen_from(included, expanded, i).len() ==> owner_index(
            #[trigger] screen_from(included, expanded, i)[k1].0,
        ) < owner_index(#[trigger] screen_from(included, expanded, i)[k2].0),
    decreases included.len() - i,
{
    if i < included.len() {
        lemma_screen_from(included, expanded, i + 1);
        let rest = screen_from(included, expanded, i + 1);
        let head = match included[i as int].project {
            Ok(p) if expanded[i as int] => seq![(Owner::Included(i as usize), p)],
            _ => Seq::<(Owner, Project)>::empty(),
        };
        let all = screen_from(included, expanded, i);
        assert(all == head + rest);
        assert(head.len() == if shown_repo(included, expanded, i as int) { 1nat } else { 0nat });
        assert forall|j: int| i <= j < included.len() && #[trigger] shown_repo(included, expanded, j) implies all.contains(
            (Owner::Included(j as usize), included[j].project->Ok_0),
        ) by {
            if j == i {
                assert(all[0] == (Owner::Included(j as usize), included[j].project->Ok_0));
            } else {
                let x = (Owner::Included(j as usize), included[j].project->Ok_0);
                assert(rest.contains(x));
                let k = choose|k: int| 0 <= k < rest.len() && rest[k] == x;
                assert(all[head.len() + k] == x);
            }
        }
        assert forall|k: int| 0 <= k < all.len() implies ({
            let e = #[trigger] all[k];
            e.0 matches Owner::Included(j) && i <= j < included.len() && shown_repo(included, expanded, j as int)
                && e.1 == included[j as int].project->Ok_0
        }) by {
            if k >= head.len() {
                assert(all[k] == rest[k - head.len()]);
            }
        }
        assert forall|k1: int, k2: int| 0 <= k1 < k2 < all.len() implies owner_index(#[trigger] all[k1].0) < owner_index(
            #[trigger] all[k2].0,
        ) by {
            assert(all[k2] == rest[k2 - head.len()]);
            if k1 >= head.len() {
                assert(all[k1] == rest[k1 - head.len()]);
            } else {
                assert(all[k1].0 == Owner::Included(i as usize));
                let e = rest[k2 - head.len()];
                assert(e.0 matches Owner::Included(j) && i + 1 <= j);
            }
        }
    }
}

/// What is on screen is the focused project and every unfolded repo with a manifest, each once:
/// as many entries as there are such repos, each one there, nothing else, in the order of the
/// includes.
pub proof fn law_every_unfolded_repo_is_on_screen(included: Seq<Included>, expanded: Seq<bool>)
    requires
        expanded.len() == included.len(),
        included.len() <= usize::MAX,
    ensures
        screen_from(included, expanded, 0).len() == unfolded_count(included, expanded, 0),
        forall|j: int| 0 <= j < included.len() && #[trigger] shown_repo(included, expanded, j) ==> screen_from(
            included,
            expanded,
            0,
        ).contains((Owner::Included(j as usize), included[j].project->Ok_0)),
        forall|k: int| 0 <= k < screen_from(included, expanded, 0).len() ==> ({
            let e = #[trigger] screen_from(included, expanded, 0)[k];
            e.0 matches Owner::Included(j) && j < included.len() && shown_repo(included, expanded, j as int)
                && e.1 == included[j as int].project->Ok_0
        }),
        forall|k1: int, k2: int| 0 <= k1 < k2 < screen_from(included, expanded, 0).len() ==> owner_index(
            #[trigger] screen_from(included, expanded, 0)[k1].0,
        ) < owner_index(#[trigger] screen_from(included, expanded, 0)[k2].0),
{
    lemma_screen_from(included, expanded, 0);
}

/// With nothing unfolded, nothing but the focused project is on screen.
proof fn lemma_nothing_unfolded(included: Seq<Included>, expanded: Seq<bool>, i: nat)
    requires
        expanded.len() == included.len(),
        forall|j: int| 0 <= j < expanded.len() ==> !#[trigger] expanded[j],
    ensures
        screen_from(included, expanded, i) == Seq::<(Owner, Project)>::empty(),
    decreases included.len() - i,
{
    if i < included.len() {
        lemma_nothing_unfolded(included, expanded, i + 1);
        assert(!expanded[i as int]);
        assert(screen_from(included, expanded, i) =~= Seq::<(Owner, Project)>::empty() + screen_from(included, expanded, i + 1));
    }
}

/// Folding a repo and folding it again leaves every fold as it was.
pub proof fn law_toggling_twice_restores_the_folds(expanded: Seq<bool>, i: int)
    requires
        0 <= i < expanded.len(),
    ensures
        ({
            let once = expanded.update(i, !expanded[i]);
            once.update(i, !once[i]) == expanded
        }),
{
    let once = expanded.update(i, !expanded[i]);
    assert(once.update(i, !once[i]) =~= expanded);
}

/// The complaints of the unfolded repos from position `i` on, each under its repo's name.
pub open spec fn complaints_from(included: Seq<Included>, expanded: Seq<bool>, i: nat) -> Seq<Seq<char>>
    decreases included.len() - i,
{
    if i >= included.len() {
        Seq::empty()
    } else {
        (match included[i as int].project {
            Ok(p) if expanded[i as int] => p.problems@.map_values(|problem: String| included[i as int].name@ + ": "@ + problem@),
            _ => Seq::empty(),
        }) + complaints_from(included, expanded, i + 1)
    }
}

impl View {
    /// Every manifest a status read has to cover: what is on screen, and nothing else.
    pub fn on_screen(&self) -> (r: Vec<(Owner, &Project)>)
        requires
            self.wf(),
        ensures
            r@.map_values(|e: (Owner, &Project)| (e.0, *e.1)) == seq![(Owner::Focused, self.focused_spec())] + screen_from(self.included_spec(), self.expanded_spec(), 0),
            (forall|i: int| 0 <= i < self.expanded_spec().len() ==> !#[trigger] self.expanded_spec()[i]) ==> r@.len() == 1,
            r@.len() == 1 + unfolded_count(self.included_spec(), self.expanded_spec(), 0),
            forall|j: int| 0 <= j < self.included_spec().len() && #[trigger] shown_repo(self.included_spec(), self.expanded_spec(), j)
                ==> r@.map_values(|e: (Owner, &Project)| (e.0, *e.1)).contains(
                (Owner::Included(j as usize), self.included_spec()[j].project->Ok_0),
            ),
    {
        proof {
            if forall|i: int| 0 <= i < self.expanded_spec().len() ==> !#[trigger] self.expanded_spec()[i] {
                lemma_nothing_unfolded(self.included@, self.expanded@, 0);
            }
        }
        let mut r: Vec<(Owner, &Project)> = Vec::new();
        r.push((Owner::Focused, &self.focused));
        let ghost head = seq![(Owner::Focused, self.focused)];
        let n = self.included.len();
        let mut i: usize = 0;
        while i < n
            invariant
                n == self.included@.len(),
                self.expanded@.len() == n,
                i <= n,
                r@.map_values(|e: (Owner, &Project)| (e.0, *e.1)) + screen_from(self.included@, self.expanded@, i as nat) == head + screen_from(self.included@, self.expanded@, 0),
            decreases n - i,
        {
            let ghost before = r@.map_values(|e: (Owner, &Project)| (e.0, *e.1));
            let ghost rest = screen_from(self.included@, self.expanded@, (i + 1) as nat);
            if self.expanded[i] {
                match &self.included[i].project {
                    Ok(p) => {
                        r.push((Owner::Included(i), p));
                        assert(r@.map_values(|e: (Owner, &Project)| (e.0, *e.1)) =~= before.push((Owner::Included(i), *p)));
                        assert(r@.map_values(|e: (Owner, &Project)| (e.0, *e.1)) + rest =~= before + screen_from(self.included@, self.expanded@, i as nat));
                    },
                    Err(_) => {
                        assert(screen_from(self.included@, self.expanded@, i as nat) =~= rest);
                    },
                }
            } else {
                assert(screen_from(self.included@, self.expanded@, i as nat) =~= rest);
            }
            i += 1;
        }
        proof {
            lemma_screen_from(self.included@, self.expanded@, 0);
            let shown = r@.map_values(|e: (Owner, &Project)| (e.0, *e.1));
            let tail = screen_from(self.included@, self.expanded@, 0);
            assert(shown == head + tail);
            assert forall|j: int| 0 <= j < self.included_spec().len() && #[trigger] shown_repo(self.included_spec(), self.expanded_spec(), j)
                implies shown.contains((Owner::Included(j as usize), self.included_spec()[j].project->Ok_0)) by {
                let x = (Owner::Included(j as usize), self.included_spec()[j].project->Ok_0);
                assert(tail.contains(x));
                let k = choose|k: int| 0 <= k < tail.len() && tail[k] == x;
                assert(shown[1 + k] == x);
            }
        }
        r
    }

    /// What the manifests on screen could not make sense of: the focused project's first, and an
    /// unfolded repo's under its own name.
    pub fn complaints(&self) -> (r: Vec<String>)
        requires
            self.wf(),
        ensures
            crate::text::views(r@) == crate::text::views(self.focused_spec().problems@) + complaints_from(self.included_spec(), self.expanded_spec(), 0),
    {
        let mut r: Vec<String> = Vec::new();
        let mut k: usize = 0;
        while k < self.focused.problems.len()
            invariant
                k <= self.focused.problems@.len(),
                crate::text::views(r@) == crate::text::views(self.focused.problems@.subrange(0, k as int)),
            decreases self.focused.problems.len() - k,
        {
            let ghost before = r@;
            let line = self.focused.problems[k].clone();
            r.push(line);
            assert(r@ == before.push(line));
            assert(crate::text::views(r@) =~= crate::text::views(before).push(line@));
            assert(crate::text::views(self.focused.problems@.subrange(0, k as int + 1)) =~= crate::text::views(self.focused.problems@.subrange(0, k as int)).push(line@));
            k += 1;
        }
        assert(self.focused.problems@.subrange(0, self.focused.problems@.len() as int) =~= self.focused.problems@);
        let ghost head = crate::text::views(r@);
        let n = self.included.len();
        let mut i: usize = 0;
        while i < n
            invariant
                n == self.included@.len(),
                self.expanded@.len() == n,
                i <= n,
                crate::text::views(r@) + complaints_from(self.included@, self.expanded@, i as nat) == head + complaints_from(self.included@, self.expanded@, 0),
            decreases n - i,
        {
            let ghost before = crate::text::views(r@);
            let ghost rest = complaints_from(self.included@, self.expanded@, (i + 1) as nat);
            if self.expanded[i] {
                match &self.included[i].project {
                    Ok(p) => {
                        let name = &self.included[i].name;
                        let ghost want = p.problems@.map_values(|problem: String| name@ + ": "@ + problem@);
                        let mut m: usize = 0;
                        while m < p.problems.len()
                            invariant
                                m <= p.problems@.len(),
                                want == p.problems@.map_values(|problem: String| name@ + ": "@ + problem@),
                                crate::text::views(r@) == before + want.subrange(0, m as int),
                            decreases p.problems.len() - m,
                        {
                            let mut line = name.clone();
                            line.append(": ");
                            line.append(p.problems[m].as_str());
                            let ghost prior = r@;
                            r.push(line);
                            assert(crate::text::views(r@) =~= crate::text::views(prior).push(line@));
                            assert(want.subrange(0, m as int + 1) =~= want.subrange(0, m as int).push(want[m as int]));
                            m += 1;
                        }
                        assert(want.subrange(0, want.len() as int) =~= want);
                        assert(crate::text::views(r@) + rest =~= before + complaints_from(self.included@, self.expanded@, i as nat));
                    },
                    Err(_) => {
                        assert(complaints_from(self.included@, self.expanded@, i as nat) =~= rest);
                    },
                }
            } else {
                assert(complaints_from(self.included@, self.expanded@, i as nat) =~= rest);
            }
            i += 1;
        }
        r
    }
}

/// The first include before position `i` naming the same repo.
fn earlier(includes: &Vec<Include>, i: usize) -> (r: Option<usize>)
    requires
        i < includes@.len(),
    ensures
        match r {
            Some(j) => j < i && first_before(includes@, i as int, includes@[i as int].path@) == Some(j as int),
            None => first_before(includes@, i as int, includes@[i as int].path@) is None,
        },
{
    let mut j: usize = 0;
    while j < i
        invariant
            j <= i < includes@.len(),
            first_before(includes@, j as int, includes@[i as int].path@) is None,
        decreases i - j,
    {
        if str_eq(includes[j].path.as_str(), includes[i].path.as_str()) {
            proof {
                lemma_first_before_stays(includes@, j as int + 1, i as int, includes@[i as int].path@);
            }
            return Some(j);
        }
        j += 1;
    }
    None
}

proof fn lemma_first_before_stays(includes: Seq<Include>, a: int, b: int, path: Seq<char>)
    requires
        0 <= a <= b,
        first_before(includes, a, path) is Some,
    ensures
        first_before(includes, b, path) == first_before(includes, a, path),
    decreases b - a,
{
    if a < b {
        lemma_first_before_stays(includes, a, b - 1, path);
    }
}

} // verus!

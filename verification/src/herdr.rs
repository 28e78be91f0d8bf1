//! Where Herdr's control socket is, how a path naming the home directory as `~` is spelled out, and
//! how a refusal from the socket reads.

use vstd::prelude::*;
use vstd::string::*;

use crate::json::{as_str, get, get_spec, str_spec, take, Json};
use crate::paths::{join, join_spec};
use crate::text::starts_with;

verus! {

/// The control socket Herdr listens on, under `home`.
pub fn socket_path(home: &str) -> (r: String)
    ensures
        r@ == join_spec(home@, ".config/herdr/herdr.sock"@),
{
    join(home, ".config/herdr/herdr.sock")
}

/// `s` without the separators and `.` pieces at its front, as a path's remaining components read.
pub open spec fn trim_lead(s: Seq<char>) -> Seq<char>
    decreases s.len(),
{
    if s.len() > 0 && s[0] == '/' {
        trim_lead(s.drop_first())
    } else if s == seq!['.'] {
        Seq::empty()
    } else if s.len() >= 2 && s[0] == '.' && s[1] == '/' {
        trim_lead(s.skip(2))
    } else {
        s
    }
}

/// `s` without the separators and `.` pieces at its end.
pub open spec fn trim_trail(s: Seq<char>) -> Seq<char>
    decreases s.len(),
{
    if s.len() > 0 && s.last() == '/' {
        trim_trail(s.drop_last())
    } else if s == seq!['.'] {
        Seq::empty()
    } else if s.len() >= 2 && s.last() == '.' && s[s.len() - 2] == '/' {
        trim_trail(s.take(s.len() - 2))
    } else {
        s
    }
}

/// Whether the first component of `path` is `~` itself.
pub open spec fn tilde_led(path: Seq<char>) -> bool {
    path == seq!['~'] || (path.len() >= 2 && path[0] == '~' && path[1] == '/')
}

/// What a path is with a leading `~` component replaced by `home`: the components after it, however
/// many separators stand between them, joined onto `home`. `~user/…` and any other path stay as
/// they are.
pub open spec fn expand_tilde_spec(path: Seq<char>, home: Seq<char>) -> Seq<char> {
    if tilde_led(path) {
        join_spec(home, trim_trail(trim_lead(path.skip(1))))
    } else {
        path
    }
}

/// Where the components of `s[from..]` start once the separators and `.` pieces before them go.
fn lead_at(s: &str, from: usize) -> (r: usize)
    requires
        from <= s@.len(),
    ensures
        from <= r <= s@.len(),
        s@.subrange(r as int, s@.len() as int) == trim_lead(s@.subrange(from as int, s@.len() as int)),
{
    let n = s.unicode_len();
    let mut i = from;
    while i < n
        invariant
            from <= i <= n,
            n == s@.len(),
            trim_lead(s@.subrange(i as int, n as int)) == trim_lead(s@.subrange(from as int, n as int)),
        decreases n - i,
    {
        let ghost t = s@.subrange(i as int, n as int);
        let c = s.get_char(i);
        if c == '/' {
            assert(t.drop_first() =~= s@.subrange(i as int + 1, n as int));
            i += 1;
        } else if c == '.' && i + 1 == n {
            assert(t =~= seq!['.']);
            assert(s@.subrange(n as int, n as int) =~= Seq::<char>::empty());
            return n;
        } else if c == '.' && s.get_char(i + 1) == '/' {
            assert(t.skip(2) =~= s@.subrange(i as int + 2, n as int));
            assert(t != seq!['.']);
            i += 2;
        } else {
            assert(t.len() >= 2 ==> t[1] == s@[i as int + 1]);
            assert(t != seq!['.']) by {
                if t == seq!['.'] {
                    assert(t.len() == 1);
                }
            }
            return i;
        }
    }
    assert(s@.subrange(i as int, n as int) =~= Seq::<char>::empty());
    i
}

/// Where the components of `s[from..to]` end once the separators and `.` pieces after them go.
pub fn trail_at(s: &str, from: usize, to: usize) -> (r: usize)
    requires
        from <= to <= s@.len(),
    ensures
        from <= r <= to,
        s@.subrange(from as int, r as int) == trim_trail(s@.subrange(from as int, to as int)),
{
    let mut j = to;
    while j > from
        invariant
            from <= j <= to <= s@.len(),
            trim_trail(s@.subrange(from as int, j as int)) == trim_trail(s@.subrange(from as int, to as int)),
        decreases j,
    {
        let ghost t = s@.subrange(from as int, j as int);
        let c = s.get_char(j - 1);
        if c == '/' {
            assert(t.drop_last() =~= s@.subrange(from as int, j as int - 1));
            j -= 1;
        } else if c == '.' && j - from == 1 {
            assert(t =~= seq!['.']);
            assert(s@.subrange(from as int, from as int) =~= Seq::<char>::empty());
            return from;
        } else if c == '.' && s.get_char(j - 2) == '/' {
            assert(t.take(t.len() - 2) =~= s@.subrange(from as int, j as int - 2));
            assert(t[t.len() - 2] == s@[j as int - 2]);
            assert(t != seq!['.']);
            j -= 2;
        } else {
            assert(t.len() >= 2 ==> t[t.len() - 2] == s@[j as int - 2]);
            assert(t != seq!['.']) by {
                if t == seq!['.'] {
                    assert(t.len() == 1);
                }
            }
            return j;
        }
    }
    assert(s@.subrange(from as int, j as int) =~= Seq::<char>::empty());
    j
}

/// `path` with a leading `~` component replaced by `home`.
pub fn expand_tilde(path: &str, home: &str) -> (r: String)
    ensures
        r@ == expand_tilde_spec(path@, home@),
{
    let n = path.unicode_len();
    if n >= 1 && path.get_char(0) == '~' && (n == 1 || path.get_char(1) == '/') {
        assert(tilde_led(path@)) by {
            if n == 1 {
                assert(path@ =~= seq!['~']);
            }
        }
        let start = lead_at(path, 1);
        assert(path@.subrange(1, n as int) =~= path@.skip(1));
        let end = trail_at(path, start, n);
        let rest = path.substring_char(start, end);
        join(home, rest)
    } else {
        assert(!tilde_led(path@)) by {
            if path@ == seq!['~'] {
                assert(path@[0] == '~');
            }
            if path@.len() >= 2 && path@[0] == '~' && path@[1] == '/' {
                assert(n >= 1);
            }
        }
        String::from_str(path)
    }
}


/// What can go wrong talking to the socket, each cause carried as the words it was reported in.
#[derive(Debug, Clone, PartialEq, Eq)]
pub enum Error {
    Connect { path: String, source: String },
    Io(String),
    Malformed(String),
    Remote { code: String, message: String },
}

impl Error {
    pub open spec fn message_spec(&self) -> Seq<char> {
        match self {
            Error::Connect { path, source } => path@ + ": "@ + source@,
            Error::Io(source) => "herdr socket: "@ + source@,
            Error::Malformed(what) => "herdr socket: "@ + what@,
            Error::Remote { code, message } => "herdr refused: "@ + code@ + ": "@ + message@,
        }
    }

    /// The sentence the error is reported in.
    pub fn message(&self) -> (r: String)
        ensures
            r@ == self.message_spec(),
    {
        match self {
            Error::Connect { path, source } => {
                let mut r = path.clone();
                r.append(": ");
                r.append(source.as_str());
                r
            },
            Error::Io(source) => {
                let mut r = String::from_str("herdr socket: ");
                r.append(source.as_str());
                r
            },
            Error::Malformed(what) => {
                let mut r = String::from_str("herdr socket: ");
                r.append(what.as_str());
                r
            },
            Error::Remote { code, message } => {
                let mut r = String::from_str("herdr refused: ");
                r.append(code.as_str());
                r.append(": ");
                r.append(message.as_str());
                r
            },
        }
    }
}

/// `dir` added to `dirs` unless it is already there.
pub fn push_unique(dirs: &mut Vec<String>, dir: String)
    ensures
        crate::text::views(old(dirs)@).contains(dir@) ==> final(dirs)@ == old(dirs)@,
        !crate::text::views(old(dirs)@).contains(dir@) ==> final(dirs)@ == old(dirs)@.push(dir),
{
    let mut i: usize = 0;
    while i < dirs.len()
        invariant
            i <= dirs@.len(),
            dirs@ == old(dirs)@,
            forall|j: int| 0 <= j < i ==> dirs@[j]@ != dir@,
        decreases dirs.len() - i,
    {
        if crate::text::str_eq(dirs[i].as_str(), dir.as_str()) {
            assert(crate::text::views(dirs@)[i as int] == dir@);
            return;
        }
        i += 1;
    }
    assert(!crate::text::views(dirs@).contains(dir@)) by {
        if crate::text::views(dirs@).contains(dir@) {
            let k = choose|k: int| 0 <= k < dirs@.len() && crate::text::views(dirs@)[k] == dir@;
            assert(dirs@[k]@ == dir@);
        }
    }
    dirs.push(dir);
}


/// A pane as Herdr's session model reports it; each field is there when the model holds a string
/// under its name.
#[derive(Debug, Clone)]
pub struct Pane {
    pub pane_id: Option<String>,
    pub workspace_id: Option<String>,
    pub cwd: Option<String>,
}

/// A workspace as the session model reports it, with the directories of its worktree when Herdr
/// knows of one.
#[derive(Debug, Clone)]
pub struct Workspace {
    pub workspace_id: Option<String>,
    pub checkout_path: Option<String>,
    pub repo_root: Option<String>,
}

/// The session model as Herdr reports it. A live popup is absent from it, so the focused pane is
/// the one the user was looking at when they pressed the key.
#[derive(Debug, Clone)]
pub struct Snapshot {
    pub focused_workspace_id: Option<String>,
    pub focused_pane_id: Option<String>,
    pub workspaces: Vec<Workspace>,
    pub panes: Vec<Pane>,
}

/// Whether an optional string is there and reads `text`.
pub open spec fn reads(o: Option<String>, text: Seq<char>) -> bool {
    o matches Some(s) && s@ == text
}

fn reads_exec(o: &Option<String>, text: &str) -> (r: bool)
    ensures
        r == reads(*o, text@),
{
    match o {
        Some(s) => crate::text::str_eq(s.as_str(), text),
        None => false,
    }
}

/// The first pane whose id is `id`.
pub open spec fn pane_with(panes: Seq<Pane>, id: Seq<char>) -> Option<Pane>
    decreases panes.len(),
{
    if panes.len() == 0 {
        None
    } else {
        match pane_with(panes.drop_last(), id) {
            Some(p) => Some(p),
            None => if reads(panes.last().pane_id, id) {
                Some(panes.last())
            } else {
                None
            },
        }
    }
}

/// The first workspace whose id is `id`.
pub open spec fn workspace_with(workspaces: Seq<Workspace>, id: Seq<char>) -> Option<Workspace>
    decreases workspaces.len(),
{
    if workspaces.len() == 0 {
        None
    } else {
        match workspace_with(workspaces.drop_last(), id) {
            Some(w) => Some(w),
            None => if reads(workspaces.last().workspace_id, id) {
                Some(workspaces.last())
            } else {
                None
            },
        }
    }
}

/// `dirs` with `dir` added unless it is already there.
pub open spec fn with_unique(dirs: Seq<Seq<char>>, dir: Seq<char>) -> Seq<Seq<char>> {
    if dirs.contains(dir) {
        dirs
    } else {
        dirs.push(dir)
    }
}

/// `items` with every repeat after the first left out.
pub open spec fn distinct(items: Seq<Seq<char>>) -> Seq<Seq<char>>
    decreases items.len(),
{
    if items.len() == 0 {
        Seq::empty()
    } else {
        with_unique(distinct(items.drop_last()), items.last())
    }
}

/// An optional directory, spelled out under `home`, as a list of none or one.
pub open spec fn dir_of(o: Option<String>, home: Seq<char>) -> Seq<Seq<char>> {
    match o {
        Some(d) => seq![expand_tilde_spec(d@, home)],
        None => Seq::empty(),
    }
}

/// The directories of the panes in workspace `id`, in order.
pub open spec fn pane_dirs(panes: Seq<Pane>, id: Seq<char>, home: Seq<char>) -> Seq<Seq<char>>
    decreases panes.len(),
{
    if panes.len() == 0 {
        Seq::empty()
    } else {
        let before = pane_dirs(panes.drop_last(), id, home);
        if reads(panes.last().workspace_id, id) {
            before + dir_of(panes.last().cwd, home)
        } else {
            before
        }
    }
}

impl Snapshot {
    /// The directory of the focused pane, spelled out under `home`.
    pub open spec fn focused_pane_cwd_spec(&self, home: Seq<char>) -> Option<Seq<char>> {
        match self.focused_pane_id {
            None => None,
            Some(id) => match pane_with(self.panes@, id@) {
                None => None,
                Some(p) => match p.cwd {
                    None => None,
                    Some(c) => Some(expand_tilde_spec(c@, home)),
                },
            },
        }
    }

    /// Where the focused workspace is: its worktree's checkout and repository root when Herdr
    /// knows of them, then the directories its panes sit in, each once, in that order.
    pub open spec fn focused_workspace_cwds_spec(&self, home: Seq<char>) -> Seq<Seq<char>> {
        match self.focused_workspace_id {
            None => Seq::empty(),
            Some(id) => distinct(
                match workspace_with(self.workspaces@, id@) {
                    Some(w) => dir_of(w.checkout_path, home) + dir_of(w.repo_root, home),
                    None => Seq::empty(),
                } + pane_dirs(self.panes@, id@, home),
            ),
        }
    }

    fn workspace_index(&self, id: &str) -> (r: Option<usize>)
        ensures
            match r {
                Some(k) => k < self.workspaces@.len() && workspace_with(self.workspaces@, id@) == Some(self.workspaces@[k as int]),
                None => workspace_with(self.workspaces@, id@) is None,
            },
    {
        let mut k: usize = 0;
        while k < self.workspaces.len()
            invariant
                k <= self.workspaces@.len(),
                workspace_with(self.workspaces@.subrange(0, k as int), id@) is None,
            decreases self.workspaces.len() - k,
        {
            assert(self.workspaces@.subrange(0, k as int + 1).drop_last() =~= self.workspaces@.subrange(0, k as int));
            if reads_exec(&self.workspaces[k].workspace_id, id) {
                proof {
                    lemma_workspace_with_prefix(self.workspaces@, id@, k as int + 1);
                }
                return Some(k);
            }
            k += 1;
        }
        assert(self.workspaces@.subrange(0, k as int) =~= self.workspaces@);
        None
    }

    /// The directory of the pane the user was looking at; `home` is where `~` leads.
    pub fn focused_pane_cwd(&self, home: &str) -> (r: Option<String>)
        ensures
            crate::text::opt_view(r) == self.focused_pane_cwd_spec(home@),
    {
        let id = match &self.focused_pane_id {
            None => {
                return None;
            },
            Some(id) => id,
        };
        let mut i: usize = 0;
        while i < self.panes.len()
            invariant
                i <= self.panes@.len(),
                self.focused_pane_id == Some(*id),
                pane_with(self.panes@.subrange(0, i as int), id@) is None,
            decreases self.panes.len() - i,
        {
            assert(self.panes@.subrange(0, i as int + 1).drop_last() =~= self.panes@.subrange(0, i as int));
            if reads_exec(&self.panes[i].pane_id, id.as_str()) {
                proof {
                    lemma_pane_with_prefix(self.panes@, id@, i as int + 1);
                }
                return match &self.panes[i].cwd {
                    None => None,
                    Some(c) => Some(expand_tilde(c.as_str(), home)),
                };
            }
            i += 1;
        }
        assert(self.panes@.subrange(0, self.panes@.len() as int) =~= self.panes@);
        None
    }

    /// The directories the focused workspace is taken from, each once; `home` is where `~` leads.
    pub fn focused_workspace_cwds(&self, home: &str) -> (r: Vec<String>)
        ensures
            crate::text::views(r@) == self.focused_workspace_cwds_spec(home@),
    {
        let id = match &self.focused_workspace_id {
            None => {
                let v: Vec<String> = Vec::new();
                assert(crate::text::views(v@) =~= Seq::<Seq<char>>::empty());
                return v;
            },
            Some(id) => id,
        };
        let mut raw: Vec<String> = Vec::new();
        match self.workspace_index(id.as_str()) {
            Some(k) => {
                let w = &self.workspaces[k];
                match &w.checkout_path {
                    Some(d) => raw.push(expand_tilde(d.as_str(), home)),
                    None => {},
                }
                match &w.repo_root {
                    Some(d) => raw.push(expand_tilde(d.as_str(), home)),
                    None => {},
                }
                assert(crate::text::views(raw@) =~= dir_of(w.checkout_path, home@) + dir_of(w.repo_root, home@));
            },
            None => {
                assert(crate::text::views(raw@) =~= Seq::<Seq<char>>::empty());
            },
        }
        let ghost lead = crate::text::views(raw@);
        assert(lead == match workspace_with(self.workspaces@, id@) {
            Some(w) => dir_of(w.checkout_path, home@) + dir_of(w.repo_root, home@),
            None => Seq::empty(),
        });
        let mut p: usize = 0;
        while p < self.panes.len()
            invariant
                p <= self.panes@.len(),
                crate::text::views(raw@) == lead + pane_dirs(self.panes@.subrange(0, p as int), id@, home@),
            decreases self.panes.len() - p,
        {
            assert(self.panes@.subrange(0, p as int + 1).drop_last() =~= self.panes@.subrange(0, p as int));
            let ghost before = raw@;
            if reads_exec(&self.panes[p].workspace_id, id.as_str()) {
                match &self.panes[p].cwd {
                    Some(c) => {
                        raw.push(expand_tilde(c.as_str(), home));
                    },
                    None => {},
                }
                assert(crate::text::views(raw@) =~= crate::text::views(before) + dir_of(self.panes@[p as int].cwd, home@));
            }
            p += 1;
        }
        assert(self.panes@.subrange(0, self.panes@.len() as int) =~= self.panes@);
        let ghost all = crate::text::views(raw@);
        let mut dirs: Vec<String> = Vec::new();
        let mut j: usize = 0;
        while j < raw.len()
            invariant
                j <= raw@.len(),
                all == crate::text::views(raw@),
                crate::text::views(dirs@) == distinct(all.subrange(0, j as int)),
            decreases raw.len() - j,
        {
            assert(all.subrange(0, j as int + 1).drop_last() =~= all.subrange(0, j as int));
            let d = raw[j].clone();
            let ghost before = dirs@;
            push_unique(&mut dirs, d);
            proof {
                if crate::text::views(before).contains(d@) {
                    assert(dirs@ == before);
                } else {
                    assert(crate::text::views(dirs@) =~= crate::text::views(before).push(d@));
                }
            }
            j += 1;
        }
        assert(all.subrange(0, raw@.len() as int) =~= all);
        dirs
    }
}

proof fn lemma_pane_with_prefix(panes: Seq<Pane>, id: Seq<char>, k: int)
    requires
        0 < k <= panes.len(),
        pane_with(panes.subrange(0, k - 1), id) is None,
        reads(panes[k - 1].pane_id, id),
    ensures
        pane_with(panes, id) == Some(panes[k - 1]),
    decreases panes.len() - k,
{
    if k < panes.len() {
        assert(panes.drop_last().subrange(0, k - 1) =~= panes.subrange(0, k - 1));
        lemma_pane_with_prefix(panes.drop_last(), id, k);
    } else {
        assert(panes.subrange(0, k - 1) =~= panes.drop_last());
    }
}

proof fn lemma_workspace_with_prefix(workspaces: Seq<Workspace>, id: Seq<char>, k: int)
    requires
        0 < k <= workspaces.len(),
        workspace_with(workspaces.subrange(0, k - 1), id) is None,
        reads(workspaces[k - 1].workspace_id, id),
    ensures
        workspace_with(workspaces, id) == Some(workspaces[k - 1]),
    decreases workspaces.len() - k,
{
    if k < workspaces.len() {
        assert(workspaces.drop_last().subrange(0, k - 1) =~= workspaces.subrange(0, k - 1));
        lemma_workspace_with_prefix(workspaces.drop_last(), id, k);
    } else {
        assert(workspaces.subrange(0, k - 1) =~= workspaces.drop_last());
    }
}


/// A field of the session model as text, when it is a string.
fn text_of(value: Option<&Json>, key: &str) -> (r: Option<String>)
    ensures
        crate::text::opt_view(r) == match value {
            Some(v) => str_spec(get_spec(*v, key@)),
            None => None,
        },
{
    match value {
        Some(v) => match as_str(get(v, key)) {
            Some(t) => Some(String::from_str(t)),
            None => None,
        },
        None => None,
    }
}

pub open spec fn text_spec(value: Json, key: Seq<char>) -> Option<Seq<char>> {
    str_spec(get_spec(value, key))
}

/// A pane as the session model holds one.
pub open spec fn pane_spec(value: Json) -> (Option<Seq<char>>, Option<Seq<char>>, Option<Seq<char>>) {
    (text_spec(value, "pane_id"@), text_spec(value, "workspace_id"@), text_spec(value, "cwd"@))
}

pub open spec fn pane_view(p: Pane) -> (Option<Seq<char>>, Option<Seq<char>>, Option<Seq<char>>) {
    (crate::text::opt_view(p.pane_id), crate::text::opt_view(p.workspace_id), crate::text::opt_view(p.cwd))
}

/// A workspace as the session model holds one, its worktree's directories read from inside it.
pub open spec fn workspace_spec(value: Json) -> (Option<Seq<char>>, Option<Seq<char>>, Option<Seq<char>>) {
    (
        text_spec(value, "workspace_id"@),
        match get_spec(value, "worktree"@) {
            Some(w) => text_spec(w, "checkout_path"@),
            None => None,
        },
        match get_spec(value, "worktree"@) {
            Some(w) => text_spec(w, "repo_root"@),
            None => None,
        },
    )
}

pub open spec fn workspace_view(w: Workspace) -> (Option<Seq<char>>, Option<Seq<char>>, Option<Seq<char>>) {
    (crate::text::opt_view(w.workspace_id), crate::text::opt_view(w.checkout_path), crate::text::opt_view(w.repo_root))
}

/// The items of an array under `key`; none when there is no array there.
pub open spec fn items_spec(value: Json, key: Seq<char>) -> Seq<Json> {
    match get_spec(value, key) {
        Some(Json::Array(items)) => items@,
        _ => Seq::empty(),
    }
}

impl Snapshot {
    /// The session model Herdr reported, as the fields that are read of it.
    pub fn from_value(value: &Json) -> (r: Snapshot)
        ensures
            crate::text::opt_view(r.focused_workspace_id) == text_spec(*value, "focused_workspace_id"@),
            crate::text::opt_view(r.focused_pane_id) == text_spec(*value, "focused_pane_id"@),
            r.panes@.map_values(|p: Pane| pane_view(p)) == items_spec(*value, "panes"@).map_values(|j: Json| pane_spec(j)),
            r.workspaces@.map_values(|w: Workspace| workspace_view(w)) == items_spec(*value, "workspaces"@).map_values(
                |j: Json| workspace_spec(j),
            ),
    {
        let mut panes: Vec<Pane> = Vec::new();
        match get(value, "panes") {
            Some(Json::Array(items)) => {
                let mut i: usize = 0;
                while i < items.len()
                    invariant
                        i <= items@.len(),
                        panes@.map_values(|p: Pane| pane_view(p)) == items@.subrange(0, i as int).map_values(|j: Json| pane_spec(j)),
                    decreases items.len() - i,
                {
                    let item = Some(&items[i]);
                    let pane = Pane {
                        pane_id: text_of(item, "pane_id"),
                        workspace_id: text_of(item, "workspace_id"),
                        cwd: text_of(item, "cwd"),
                    };
                    let ghost before = panes@;
                    panes.push(pane);
                    assert(panes@.map_values(|p: Pane| pane_view(p)) =~= before.map_values(|p: Pane| pane_view(p)).push(pane_view(pane)));
                    assert(items@.subrange(0, i as int + 1).map_values(|j: Json| pane_spec(j)) =~= items@.subrange(0, i as int).map_values(|j: Json| pane_spec(j)).push(pane_spec(items@[i as int])));
                    i += 1;
                }
                assert(items@.subrange(0, items@.len() as int) =~= items@);
            },
            _ => {
                assert(panes@.map_values(|p: Pane| pane_view(p)) =~= Seq::<(Option<Seq<char>>, Option<Seq<char>>, Option<Seq<char>>)>::empty());
            },
        }
        let mut workspaces: Vec<Workspace> = Vec::new();
        match get(value, "workspaces") {
            Some(Json::Array(items)) => {
                let mut i: usize = 0;
                while i < items.len()
                    invariant
                        i <= items@.len(),
                        workspaces@.map_values(|w: Workspace| workspace_view(w)) == items@.subrange(0, i as int).map_values(
                            |j: Json| workspace_spec(j),
                        ),
                    decreases items.len() - i,
                {
                    let item = &items[i];
                    let worktree = get(item, "worktree");
                    let workspace = Workspace {
                        workspace_id: text_of(Some(item), "workspace_id"),
                        checkout_path: text_of(worktree, "checkout_path"),
                        repo_root: text_of(worktree, "repo_root"),
                    };
                    let ghost before = workspaces@;
                    workspaces.push(workspace);
                    assert(workspaces@.map_values(|w: Workspace| workspace_view(w)) =~= before.map_values(|w: Workspace| workspace_view(w)).push(workspace_view(workspace)));
                    assert(items@.subrange(0, i as int + 1).map_values(|j: Json| workspace_spec(j)) =~= items@.subrange(0, i as int).map_values(|j: Json| workspace_spec(j)).push(workspace_spec(items@[i as int])));
                    i += 1;
                }
                assert(items@.subrange(0, items@.len() as int) =~= items@);
            },
            _ => {
                assert(workspaces@.map_values(|w: Workspace| workspace_view(w)) =~= Seq::<(Option<Seq<char>>, Option<Seq<char>>, Option<Seq<char>>)>::empty());
            },
        }
        Snapshot {
            focused_workspace_id: text_of(Some(value), "focused_workspace_id"),
            focused_pane_id: text_of(Some(value), "focused_pane_id"),
            workspaces,
            panes,
        }
    }
}

/// What a reply from Herdr's socket to `method` comes to: its result, or what went wrong. `None`
/// is a blank line; an `Err` a line that would not parse.
pub open spec fn reply_spec(method: Seq<char>, parsed: Option<Result<Json, String>>) -> Result<Json, (Seq<char>, Option<Seq<char>>)> {
    match parsed {
        None => Err((method + ": no reply"@, None)),
        Some(Err(e)) => Err((method + ": "@ + e@, None)),
        Some(Ok(reply)) => match get_spec(reply, "error"@) {
            Some(error) => Err(
                (
                    match str_spec(get_spec(error, "code"@)) {
                        Some(c) => c,
                        None => "error"@,
                    },
                    Some(
                        match str_spec(get_spec(error, "message"@)) {
                            Some(m) => m,
                            None => "(no message)"@,
                        },
                    ),
                ),
            ),
            None => match get_spec(reply, "result"@) {
                Some(result) => Ok(result),
                None => Err((method + ": reply carries neither result nor error"@, None)),
            },
        },
    }
}

/// An error as plain values: a refusal's code and message, or what is malformed with `None`.
pub open spec fn error_view(e: Error) -> (Seq<char>, Option<Seq<char>>) {
    match e {
        Error::Remote { code, message } => (code@, Some(message@)),
        Error::Malformed(what) => (what@, None),
        Error::Connect { path, .. } => (path@, None),
        Error::Io(source) => (source@, None),
    }
}

/// A reply read: a refusal is Herdr's own code and message; anything else unexpected is malformed.
pub fn reply_of(method: &str, parsed: Option<Result<Json, String>>) -> (r: Result<Json, Error>)
    ensures
        match (r, reply_spec(method@, parsed)) {
            (Ok(v), Ok(w)) => v == w,
            (Err(e), Err(w)) => error_view(e) == w && (e is Remote || e is Malformed),
            _ => false,
        },
{
    let mut reply = match parsed {
        None => {
            let mut e = String::from_str(method);
            e.append(": no reply");
            return Err(Error::Malformed(e));
        },
        Some(Err(source)) => {
            let mut e = String::from_str(method);
            e.append(": ");
            e.append(source.as_str());
            return Err(Error::Malformed(e));
        },
        Some(Ok(reply)) => reply,
    };
    match get(&reply, "error") {
        Some(error) => {
            let code = match as_str(get(error, "code")) {
                Some(c) => String::from_str(c),
                None => String::from_str("error"),
            };
            let message = match as_str(get(error, "message")) {
                Some(m) => String::from_str(m),
                None => String::from_str("(no message)"),
            };
            return Err(Error::Remote { code, message });
        },
        None => {},
    }
    match take(&mut reply, "result") {
        Some(result) => Ok(result),
        None => {
            let mut e = String::from_str(method);
            e.append(": reply carries neither result nor error");
            Err(Error::Malformed(e))
        },
    }
}

/// The session model in a `session.snapshot` result.
pub fn snapshot_of(mut result: Json) -> (r: Result<Json, Error>)
    ensures
        match (r, get_spec(result, "snapshot"@)) {
            (Ok(v), Some(w)) => v == w,
            (Err(e), None) => e matches Error::Malformed(m) && m@ == "session.snapshot: no snapshot in result"@,
            _ => false,
        },
{
    match take(&mut result, "snapshot") {
        Some(s) => Ok(s),
        None => Err(Error::Malformed(String::from_str("session.snapshot: no snapshot in result"))),
    }
}

} // verus!

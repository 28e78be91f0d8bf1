//! The popup's decisions: what a keystroke asks for on each screen, which notices the footer says and
//! how they are laid out, and what the heading and the key hints read.
//!
//! Drawing, reading keys and talking to the daemon happen around these; nothing here waits.

use vstd::prelude::*;
use vstd::string::*;
use vstd::view::View as ModelOf;

use crate::client::{is_target, target_refused, Peer, Target};
use crate::manifest::Project;
use crate::peek::NO_REPO_LOG;
use crate::rows::Row;
use crate::store::{project_key_spec, slot_dir, unit_file, Identity, Store};
use crate::text::{decimal, decimal_string, push_char, str_eq, views};
use crate::tui::{elide, elided, stepped, stepped_spec, wrap, wrap_spec, GAP, NOTICE_MARK};
use crate::unit::key_spec;
use crate::view::View;

verus! {

/// A key as the popup reads one.
#[derive(Debug, Clone, Copy, PartialEq, Eq)]
pub enum Key {
    Esc,
    Up,
    Down,
    PageUp,
    PageDown,
    Tab,
    BackTab,
    Backspace,
    Enter,
    Char(char),
    Other,
}

/// What holds the keyboard: the list of rows, a peek over it, or the agent form.
#[derive(Debug, Clone, Copy, PartialEq, Eq)]
pub enum Screen {
    Rows,
    Peek,
    Form,
}

/// What a keystroke asks of the loop around the popup.
#[derive(Debug, Clone, Copy, PartialEq, Eq)]
pub enum Action {
    Nothing,
    /// Back to the rows from a peek.
    ClosePeek,
    ToggleFollow,
    /// Lines towards the newest, negative towards the oldest.
    Scroll(isize),
    /// Pages towards the newest, negative towards the oldest.
    Page(isize),
    /// Leave the form, and what was said about it.
    CloseForm,
    Erase,
    Save,
    Type(char),
    Quit,
    /// Open the form, and clear what was said.
    OpenForm,
    /// Hand the keyboard to an agent that writes a manifest.
    HandToAgent,
    /// Fold or unfold the repo under the cursor.
    Toggle,
    /// `s`, `x` or `r` on the row under the cursor.
    Verb(char),
    OpenPeek,
    OpenOverlay,
}

/// Where the cursor ends up, whether the rows are read again before the next frame, and what the
/// loop is to do.
#[derive(Debug, Clone, Copy, PartialEq, Eq)]
pub struct Step {
    pub cursor: usize,
    pub reread: bool,
    pub action: Action,
}

/// A keystroke on each screen. A peek scrolls, follows and closes; the form takes text; the rows
/// move the cursor, reach for a verb, a log or the agent, and are read again after every key. `g`
/// writes a manifest only where there is none.
pub open spec fn keystroke_spec(screen: Screen, key: Key, has_view: bool, cursor: usize, rows: usize) -> Step {
    match screen {
        Screen::Peek => {
            let action = match key {
                Key::Esc => Action::ClosePeek,
                Key::Char('f') => Action::ToggleFollow,
                Key::Up | Key::Char('k') => Action::Scroll(-1isize),
                Key::Down | Key::Char('j') => Action::Scroll(1isize),
                Key::PageUp => Action::Page(-1isize),
                Key::PageDown => Action::Page(1isize),
                _ => Action::Nothing,
            };
            Step { cursor, reread: key == Key::Esc, action }
        },
        Screen::Form => {
            let action = match key {
                Key::Esc => Action::CloseForm,
                Key::Backspace => Action::Erase,
                Key::Enter => Action::Save,
                Key::Char(c) => Action::Type(c),
                _ => Action::Nothing,
            };
            Step { cursor, reread: false, action }
        },
        Screen::Rows => match key {
            Key::Up | Key::Char('k') => Step {
                cursor: stepped_spec(cursor as int, -1, rows as int) as usize,
                reread: true,
                action: Action::Nothing,
            },
            Key::Down | Key::Char('j') => Step {
                cursor: stepped_spec(cursor as int, 1, rows as int) as usize,
                reread: true,
                action: Action::Nothing,
            },
            _ => Step {
                cursor,
                reread: true,
                action: match key {
                    Key::Char('q') => Action::Quit,
                    Key::Char('c') => Action::OpenForm,
                    Key::Char('g') => if has_view {
                        Action::Nothing
                    } else {
                        Action::HandToAgent
                    },
                    Key::Tab | Key::BackTab => Action::Toggle,
                    Key::Char('s') => Action::Verb('s'),
                    Key::Char('x') => Action::Verb('x'),
                    Key::Char('r') => Action::Verb('r'),
                    Key::Char('L') => Action::OpenPeek,
                    Key::Char('O') => Action::OpenOverlay,
                    _ => Action::Nothing,
                },
            },
        },
    }
}

/// What a keystroke does on `screen`, with `rows` rows listed and the cursor at `cursor`.
pub fn keystroke(screen: Screen, key: Key, has_view: bool, cursor: usize, rows: usize) -> (r: Step)
    requires
        cursor < usize::MAX,
    ensures
        r == keystroke_spec(screen, key, has_view, cursor, rows),
{
    match screen {
        Screen::Peek => {
            let action = match key {
                Key::Esc => Action::ClosePeek,
                Key::Char('f') => Action::ToggleFollow,
                Key::Up | Key::Char('k') => Action::Scroll(-1),
                Key::Down | Key::Char('j') => Action::Scroll(1),
                Key::PageUp => Action::Page(-1),
                Key::PageDown => Action::Page(1),
                _ => Action::Nothing,
            };
            let reread = match key {
                Key::Esc => true,
                _ => false,
            };
            Step { cursor, reread, action }
        },
        Screen::Form => {
            let action = match key {
                Key::Esc => Action::CloseForm,
                Key::Backspace => Action::Erase,
                Key::Enter => Action::Save,
                Key::Char(c) => Action::Type(c),
                _ => Action::Nothing,
            };
            Step { cursor, reread: false, action }
        },
        Screen::Rows => match key {
            Key::Up | Key::Char('k') => Step { cursor: stepped(cursor, -1, rows), reread: true, action: Action::Nothing },
            Key::Down | Key::Char('j') => Step { cursor: stepped(cursor, 1, rows), reread: true, action: Action::Nothing },
            _ => {
                let action = match key {
                    Key::Char('q') => Action::Quit,
                    Key::Char('c') => Action::OpenForm,
                    Key::Char('g') => if has_view {
                        Action::Nothing
                    } else {
                        Action::HandToAgent
                    },
                    Key::Tab | Key::BackTab => Action::Toggle,
                    Key::Char('s') => Action::Verb('s'),
                    Key::Char('x') => Action::Verb('x'),
                    Key::Char('r') => Action::Verb('r'),
                    Key::Char('L') => Action::OpenPeek,
                    Key::Char('O') => Action::OpenOverlay,
                    _ => Action::Nothing,
                };
                Step { cursor, reread: true, action }
            },
        },
    }
}

/// However a key moves the cursor, it stays on a row when there is one, and at the top when there is
/// none.
pub proof fn law_the_cursor_never_leaves_the_list(screen: Screen, key: Key, has_view: bool, cursor: usize, rows: usize)
    requires
        cursor < rows || (cursor == 0 && rows == 0),
    ensures
        ({
            let step = keystroke_spec(screen, key, has_view, cursor, rows);
            step.cursor < rows || (step.cursor == 0 && rows == 0)
        }),
{
}

pub const NO_VERB: &'static str = "s, x and r act on unit rows; ↹ unfolds a repo";
pub const NO_DOCKER_LOG: &'static str = "a docker service has no log file of ours to overlay";
pub const NOTHING_HERE: &'static str = "nothing here to act on";
pub const DAEMON_SKEWED: &'static str = "daemon skewed";
pub const NO_DAEMON: &'static str = "no daemon";
pub const LAUNCHING: &'static str = "splitting a pane and starting an agent…";

/// The project a verb on the row under the cursor reaches, or why there is none: no row there, a
/// repo row, or a repo whose manifest could not be read.
pub open spec fn owning_project(view: View, rows: Seq<Row>, cursor: int) -> Result<Project, Seq<char>> {
    if cursor < 0 || cursor >= rows.len() {
        Err(NOTHING_HERE@)
    } else if rows[cursor].repo {
        Err(NO_VERB@)
    } else {
        match view.project_spec(rows[cursor].owner) {
            Some(p) => Ok(p),
            None => Err(NO_VERB@),
        }
    }
}

/// What the cursor row acts on, and which project it belongs to: the row's own, which for an
/// unfolded row is the included repo rather than the one being looked at.
pub fn selected<'a>(view: &'a View, rows: &Vec<Row>, cursor: usize) -> (r: Result<(&'a Project, Target<'a>), String>)
    ensures
        match owning_project(*view, rows@, cursor as int) {
            Err(e) => r matches Err(x) && x@ == e,
            Ok(p) => match r {
                Ok((q, t)) => *q == p && target_refused(p, rows@[cursor as int].kind@, rows@[cursor as int].name@) is None
                    && is_target(p, rows@[cursor as int].kind@, rows@[cursor as int].name@, t),
                Err(x) => target_refused(p, rows@[cursor as int].kind@, rows@[cursor as int].name@) == Some(x@),
            },
        },
{
    if cursor >= rows.len() {
        return Err(String::from_str(NOTHING_HERE));
    }
    let row = &rows[cursor];
    if row.repo {
        return Err(String::from_str(NO_VERB));
    }
    let project = match view.project(row.owner) {
        None => {
            return Err(String::from_str(NO_VERB));
        },
        Some(p) => p,
    };
    match Target::of(project, row.kind, row.name.as_str()) {
        Ok(target) => Ok((project, target)),
        Err(e) => Err(e),
    }
}

/// The log an overlay follows for the row under the cursor: only a local unit keeps one, under the
/// project that owns it.
pub open spec fn log_target_spec(view: View, rows: Seq<Row>, store_root: Seq<char>, cursor: int) -> Result<Seq<char>, Seq<char>> {
    if cursor < 0 || cursor >= rows.len() {
        Err(NOTHING_HERE@)
    } else if rows[cursor].kind@ == "docker"@ {
        Err(NO_DOCKER_LOG@)
    } else if rows[cursor].kind@ != "local"@ {
        Err(NO_REPO_LOG@)
    } else {
        match view.project_spec(rows[cursor].owner) {
            None => Err(NO_REPO_LOG@),
            Some(p) => Ok(unit_file(slot_dir(store_root, project_key_spec(p.root@)), "logs"@, key_spec("local"@, rows[cursor].name@), ".log"@)),
        }
    }
}

/// Where the log of the row under the cursor would be. Whether it is there yet is for the caller to
/// find out.
pub fn log_target(store: &Store, view: &View, rows: &Vec<Row>, cursor: usize) -> (r: Result<String, String>)
    ensures
        match (r, log_target_spec(*view, rows@, store.root_spec(), cursor as int)) {
            (Ok(path), Ok(want)) => path@ == want,
            (Err(e), Err(want)) => e@ == want,
            _ => false,
        },
{
    proof {
        reveal_strlit("docker");
        reveal_strlit("local");
    }
    if cursor >= rows.len() {
        return Err(String::from_str(NOTHING_HERE));
    }
    let row = &rows[cursor];
    if str_eq(row.kind, crate::unit::DOCKER) {
        return Err(String::from_str(NO_DOCKER_LOG));
    }
    if !str_eq(row.kind, crate::unit::LOCAL) {
        return Err(String::from_str(NO_REPO_LOG));
    }
    let project = match view.project(row.owner) {
        None => {
            return Err(String::from_str(NO_REPO_LOG));
        },
        Some(p) => p,
    };
    let identity = Identity { path: project.root.clone(), name: project.name.clone() };
    let key = crate::unit::key(crate::unit::LOCAL, row.name.as_str());
    Ok(store.slot(&identity).log_path(key.as_str()))
}

/// The overlay's log once the caller has looked for it: the path where it is there, and where it
/// is not yet, the sentence that says to start the unit first.
pub fn checked_log(target: Result<String, String>, present: bool, name: &str) -> (r: Result<String, String>)
    ensures
        match target {
            Err(e) => r == Err::<String, String>(e),
            Ok(path) => if present {
                r == Ok::<String, String>(path)
            } else {
                r matches Err(m) && m@ == "no log yet for "@ + name@ + ": start it first"@
            },
        },
{
    match target {
        Err(e) => Err(e),
        Ok(path) => if present {
            Ok(path)
        } else {
            let mut m = String::from_str("no log yet for ");
            m.append(name);
            m.append(": start it first");
            proof {
                reveal_strlit("no log yet for ");
                reveal_strlit(": start it first");
            }
            Err(m)
        },
    }
}

/// How loudly a line of the footer speaks.
#[derive(Debug, Clone, Copy, PartialEq, Eq)]
pub enum Tone {
    Quiet,
    Warn,
    Bad,
}

/// A sentence the footer has to make readable in full: a refusal, a manifest complaint, a daemon
/// that cannot be used.
#[derive(Debug, Clone, PartialEq, Eq)]
pub struct Notice {
    pub text: String,
    pub tone: Tone,
}

impl Notice {
    pub fn warn(text: &str) -> (r: Notice)
        ensures
            r.text@ == text@,
            r.tone == Tone::Warn,
    {
        Notice { text: String::from_str(text), tone: Tone::Warn }
    }

    pub fn bad(text: &str) -> (r: Notice)
        ensures
            r.text@ == text@,
            r.tone == Tone::Bad,
    {
        Notice { text: String::from_str(text), tone: Tone::Bad }
    }
}

/// A notice as plain values.
pub open spec fn notice_view(n: Notice) -> (Seq<char>, Tone) {
    (n.text@, n.tone)
}

pub open spec fn notice_views(v: Seq<Notice>) -> Seq<(Seq<char>, Tone)> {
    v.map_values(|n: Notice| notice_view(n))
}

/// `said` with every notice whose words were already said left out.
pub open spec fn said_once(said: Seq<(Seq<char>, Tone)>) -> Seq<(Seq<char>, Tone)>
    decreases said.len(),
{
    if said.len() == 0 {
        Seq::empty()
    } else {
        let before = said_once(said.drop_last());
        if said.drop_last().map_values(|n: (Seq<char>, Tone)| n.0).contains(said.last().0) {
            before
        } else {
            before.push(said.last())
        }
    }
}

pub open spec fn opt_notice(n: Option<(Seq<char>, Tone)>) -> Seq<(Seq<char>, Tone)> {
    match n {
        Some(x) => seq![x],
        None => Seq::empty(),
    }
}

/// Everything with a claim on the footer, newest last: the manifests' own complaints, what is wrong
/// with the daemon, what went wrong finding the project, and the answer to the last keystroke;
/// anything already said once is not said again.
pub open spec fn notices_spec(complaints: Seq<Seq<char>>, daemon: Option<(Seq<char>, Tone)>, trouble: Option<Seq<char>>, notice: Option<Seq<char>>) -> Seq<(Seq<char>, Tone)> {
    said_once(
        complaints.map_values(|c: Seq<char>| (c, Tone::Warn)) + opt_notice(daemon) + opt_notice(
            match trouble {
                Some(t) => Some((t, Tone::Bad)),
                None => None,
            },
        ) + opt_notice(
            match notice {
                Some(t) => Some((t, Tone::Warn)),
                None => None,
            },
        ),
    )
}

fn said_before(said: &Vec<Notice>, upto: usize, text: &str) -> (r: bool)
    requires
        upto <= said@.len(),
    ensures
        r == notice_views(said@).subrange(0, upto as int).map_values(|n: (Seq<char>, Tone)| n.0).contains(text@),
{
    let ghost texts = notice_views(said@).subrange(0, upto as int).map_values(|n: (Seq<char>, Tone)| n.0);
    let mut i: usize = 0;
    while i < upto
        invariant
            i <= upto <= said@.len(),
            texts == notice_views(said@).subrange(0, upto as int).map_values(|n: (Seq<char>, Tone)| n.0),
            forall|j: int| 0 <= j < i ==> texts[j] != text@,
        decreases upto - i,
    {
        if str_eq(said[i].text.as_str(), text) {
            assert(texts[i as int] == text@);
            return true;
        }
        i += 1;
    }
    false
}

/// The footer's notices, each said once.
pub fn notices(complaints: &Vec<String>, daemon: &Option<Notice>, trouble: Option<&str>, notice: Option<&str>) -> (r: Vec<Notice>)
    ensures
        notice_views(r@) == notices_spec(
            views(complaints@),
            match daemon {
                Some(n) => Some(notice_view(*n)),
                None => None,
            },
            match trouble {
                Some(t) => Some(t@),
                None => None,
            },
            match notice {
                Some(t) => Some(t@),
                None => None,
            },
        ),
{
    let mut said: Vec<Notice> = Vec::new();
    let mut i: usize = 0;
    while i < complaints.len()
        invariant
            i <= complaints@.len(),
            notice_views(said@) == views(complaints@).subrange(0, i as int).map_values(|c: Seq<char>| (c, Tone::Warn)),
        decreases complaints.len() - i,
    {
        let ghost before = said@;
        let n = Notice::warn(complaints[i].as_str());
        said.push(n);
        assert(notice_views(said@) =~= notice_views(before).push(notice_view(n)));
        assert(views(complaints@).subrange(0, i as int + 1).map_values(|c: Seq<char>| (c, Tone::Warn)) =~= views(complaints@).subrange(0, i as int).map_values(|c: Seq<char>| (c, Tone::Warn)).push((complaints@[i as int]@, Tone::Warn)));
        i += 1;
    }
    assert(views(complaints@).subrange(0, complaints@.len() as int) =~= views(complaints@));
    let ghost lead = notice_views(said@);
    match daemon {
        Some(n) => said.push(Notice { text: n.text.clone(), tone: n.tone }),
        None => {},
    }
    let ghost with_daemon = notice_views(said@);
    assert(with_daemon =~= lead + opt_notice(match daemon {
        Some(n) => Some(notice_view(*n)),
        None => None,
    }));
    match trouble {
        Some(t) => said.push(Notice::bad(t)),
        None => {},
    }
    let ghost with_trouble = notice_views(said@);
    assert(with_trouble =~= with_daemon + opt_notice(match trouble {
        Some(t) => Some((t@, Tone::Bad)),
        None => None,
    }));
    match notice {
        Some(t) => said.push(Notice::warn(t)),
        None => {},
    }
    let ghost all = notice_views(said@);
    assert(all =~= with_trouble + opt_notice(match notice {
        Some(t) => Some((t@, Tone::Warn)),
        None => None,
    }));
    let mut kept: Vec<Notice> = Vec::new();
    let mut k: usize = 0;
    while k < said.len()
        invariant
            k <= said@.len(),
            all == notice_views(said@),
            notice_views(kept@) == said_once(all.subrange(0, k as int)),
        decreases said.len() - k,
    {
        assert(all.subrange(0, k as int + 1).drop_last() =~= all.subrange(0, k as int));
        assert(all.subrange(0, k as int + 1).last() == notice_view(said@[k as int]));
        assert(notice_views(said@).subrange(0, k as int) == all.subrange(0, k as int));
        if !said_before(&said, k, said[k].text.as_str()) {
            let ghost before = kept@;
            let n = Notice { text: said[k].text.clone(), tone: said[k].tone };
            kept.push(n);
            assert(notice_views(kept@) =~= notice_views(before).push(notice_view(n)));
        }
        k += 1;
    }
    assert(all.subrange(0, said@.len() as int) =~= all);
    kept
}

/// One notice as the lines it takes: wrapped to what the mark leaves of the width, the first line
/// marked and the rest indented under it.
pub open spec fn marked(text: Seq<char>, tone: Tone, width: nat) -> Seq<(Seq<char>, Tone)> {
    let parts = wrap_spec(text, if width >= 2 { (width - 2) as nat } else { 0 });
    Seq::new(parts.len(), |i: int| ((if i == 0 { "! "@ } else { "  "@ }) + parts[i], tone))
}

/// Every notice's lines, in order.
pub open spec fn all_lines(said: Seq<(Seq<char>, Tone)>, width: nat) -> Seq<(Seq<char>, Tone)>
    decreases said.len(),
{
    if said.len() == 0 {
        Seq::empty()
    } else {
        all_lines(said.drop_last(), width) + marked(said.last().0, said.last().1, width)
    }
}

/// The footer's lines in `room` rows at `width`: every notice whole when they fit; otherwise the
/// newest lines, under a count of what was left out, since the newest is what a keystroke just
/// asked for.
pub open spec fn notice_lines_spec(said: Seq<(Seq<char>, Tone)>, width: nat, room: nat) -> Seq<(Seq<char>, Tone)> {
    let all = all_lines(said, width);
    if all.len() <= room {
        all
    } else if room == 0 {
        Seq::empty()
    } else {
        seq![("  …and "@ + decimal((all.len() + 1 - room) as nat) + " more"@, Tone::Quiet)] + all.skip(
            all.len() - (room - 1),
        )
    }
}

/// The footer never takes more rows than it was given, and says every notice whole when they fit.
pub proof fn law_the_footer_keeps_to_its_room(said: Seq<(Seq<char>, Tone)>, width: nat, room: nat)
    ensures
        notice_lines_spec(said, width, room).len() <= room,
        all_lines(said, width).len() <= room ==> notice_lines_spec(said, width, room) == all_lines(said, width),
{
}

pub open spec fn line_views(v: Seq<(String, Tone)>) -> Seq<(Seq<char>, Tone)> {
    v.map_values(|l: (String, Tone)| (l.0@, l.1))
}

/// The footer's lines, each with the tone it is drawn in.
pub fn notice_lines(said: &Vec<Notice>, width: usize, room: usize) -> (r: Vec<(String, Tone)>)
    ensures
        line_views(r@) == notice_lines_spec(notice_views(said@), width as nat, room as nat),
{
    proof {
        reveal_strlit("! ");
        reveal_strlit("  ");
    }
    let ghost sv = notice_views(said@);
    let inner: usize = if width >= 2 {
        width - 2
    } else {
        0
    };
    let mut lines: Vec<(String, Tone)> = Vec::new();
    let mut i: usize = 0;
    while i < said.len()
        invariant
            i <= said@.len(),
            sv == notice_views(said@),
            inner as nat == (if width >= 2 { (width - 2) as nat } else { 0 }),
            line_views(lines@) == all_lines(sv.subrange(0, i as int), width as nat),
        decreases said.len() - i,
    {
        let parts = wrap(said[i].text.as_str(), inner);
        let tone = said[i].tone;
        let ghost want = marked(said@[i as int].text@, tone, width as nat);
        let ghost start = line_views(lines@);
        let mut j: usize = 0;
        while j < parts.len()
            invariant
                j <= parts@.len(),
                views(parts@) == wrap_spec(said@[i as int].text@, inner as nat),
                want == marked(said@[i as int].text@, tone, width as nat),
                tone == said@[i as int].tone,
                inner as nat == (if width >= 2 { (width - 2) as nat } else { 0 }),
                line_views(lines@) == start + want.subrange(0, j as int),
            decreases parts.len() - j,
        {
            let mut line = if j == 0 {
                String::from_str(NOTICE_MARK)
            } else {
                String::from_str("  ")
            };
            line.append(parts[j].as_str());
            let ghost before = lines@;
            lines.push((line, tone));
            assert(views(parts@)[j as int] == parts@[j as int]@);
            assert(line_views(lines@) =~= line_views(before).push((line@, tone)));
            assert(want.subrange(0, j as int + 1) =~= want.subrange(0, j as int).push(want[j as int]));
            j += 1;
        }
        assert(want.subrange(0, parts@.len() as int) =~= want);
        assert(sv.subrange(0, i as int + 1).drop_last() =~= sv.subrange(0, i as int));
        assert(sv.subrange(0, i as int + 1).last() == notice_view(said@[i as int]));
        i += 1;
    }
    assert(sv.subrange(0, said@.len() as int) =~= sv);
    let ghost all = line_views(lines@);
    let n = lines.len();
    if n <= room {
        return lines;
    }
    let mut kept: Vec<(String, Tone)> = Vec::new();
    if room == 0 {
        assert(line_views(kept@) =~= Seq::<(Seq<char>, Tone)>::empty());
        return kept;
    }
    let dropped = n - room + 1;
    let mut head = String::from_str("  …and ");
    let count = decimal_string(dropped as u64);
    head.append(count.as_str());
    head.append(" more");
    proof {
        reveal_strlit("  …and ");
        reveal_strlit(" more");
    }
    kept.push((head, Tone::Quiet));
    let from = n - (room - 1);
    let mut k: usize = from;
    while k < n
        invariant
            from <= k <= n,
            n == lines@.len(),
            all == line_views(lines@),
            line_views(kept@) == seq![(head@, Tone::Quiet)] + all.subrange(from as int, k as int),
        decreases n - k,
    {
        let ghost before = kept@;
        let line = (lines[k].0.clone(), lines[k].1);
        kept.push(line);
        assert(line_views(kept@) =~= line_views(before).push((line.0@, line.1)));
        assert(all.subrange(from as int, k as int + 1) =~= all.subrange(from as int, k as int).push(all[k as int]));
        k += 1;
    }
    assert(all.subrange(from as int, n as int) =~= all.skip(from as int));
    kept
}

/// The heading's title fitted beside the daemon's tag of `tag_len` characters, and the spaces that
/// push the tag against the right edge.
pub open spec fn heading_spec(title: Seq<char>, tag_len: nat, width: nat) -> (Seq<char>, nat) {
    let room: nat = if width > tag_len {
        (width - tag_len - 1) as nat
    } else {
        0
    };
    let t = elided(title, room);
    (t, if width >= t.len() + tag_len { (width - t.len() - tag_len) as nat } else { 0 })
}

/// The title as it fits on the heading line beside `tag`, and the filler between them.
pub fn heading(title: &str, tag: &str, width: usize) -> (r: (String, usize))
    ensures
        (r.0@, r.1 as nat) == heading_spec(title@, tag@.len(), width as nat),
{
    let tag_len = tag.unicode_len();
    let room: usize = if width > tag_len {
        width - tag_len - 1
    } else {
        0
    };
    let t = elide(title, room);
    let t_len = t.unicode_len();
    assert(t_len <= room);
    let filler: usize = if width > tag_len {
        width - tag_len - t_len
    } else {
        0
    };
    (t, filler)
}

/// The key hints: quit and the agent always; writing a manifest where there is none; the verbs, the
/// log and the overlay where there is one, and unfolding where it names repos.
pub open spec fn hints_spec(view: Option<bool>) -> Seq<(Seq<char>, Seq<char>)> {
    seq![("q"@, "quit"@), ("c"@, "agent"@)] + match view {
        None => seq![("g"@, "write a manifest"@)],
        Some(repos) => seq![("s"@, "start"@), ("x"@, "stop"@), ("r"@, "restart"@), ("L"@, "log"@), ("O"@, "overlay"@)]
            + if repos {
            seq![("↹"@, "repo"@)]
        } else {
            Seq::empty()
        },
    }
}

/// `view` is whether there is a project, and if so whether it names repos.
pub fn hints(view: Option<bool>) -> (r: Vec<(&'static str, &'static str)>)
    ensures
        r@.map_values(|h: (&str, &str)| (h.0@, h.1@)) == hints_spec(view),
{
    let mut r: Vec<(&'static str, &'static str)> = vec![("q", "quit"), ("c", "agent")];
    match view {
        None => r.push(("g", "write a manifest")),
        Some(repos) => {
            r.push(("s", "start"));
            r.push(("x", "stop"));
            r.push(("r", "restart"));
            r.push(("L", "log"));
            r.push(("O", "overlay"));
            if repos {
                r.push(("↹", "repo"));
            }
        },
    }
    assert(r@.map_values(|h: (&str, &str)| (h.0@, h.1@)) =~= hints_spec(view));
    r
}

/// The daemon as the heading shows it, and the whole of why when it cannot be used.
#[derive(Debug, Clone, PartialEq, Eq)]
pub struct Daemon {
    pub tag: String,
    pub tone: Tone,
    pub trouble: Option<Notice>,
}

/// What the heading says of the daemon it dialled: its version and pid, or, when it speaks another
/// protocol or could not be reached, a tag, with the sentence saying why as a notice.
pub fn daemon_report(link: &Result<Peer, String>) -> (r: Daemon)
    ensures
        match link {
            Ok(peer) => if peer.protocol != crate::daemon::PROTOCOL {
                r.tag@ == DAEMON_SKEWED@ && r.tone == Tone::Warn && (r.trouble matches Some(n) && n.text@ == peer.footer_spec() && n.tone == Tone::Warn)
            } else {
                r.tag@ == peer.footer_spec() && r.tone == Tone::Quiet && r.trouble is None
            },
            Err(complaint) => r.tag@ == NO_DAEMON@ && r.tone == Tone::Bad && (r.trouble matches Some(n) && n.text@ == complaint@ && n.tone == Tone::Bad),
        },
{
    match link {
        Ok(peer) => {
            if peer.skewed() {
                let footer = peer.footer();
                Daemon { tag: String::from_str(DAEMON_SKEWED), tone: Tone::Warn, trouble: Some(Notice::warn(footer.as_str())) }
            } else {
                Daemon { tag: peer.footer(), tone: Tone::Quiet, trouble: None }
            }
        },
        Err(complaint) => Daemon {
            tag: String::from_str(NO_DAEMON),
            tone: Tone::Bad,
            trouble: Some(Notice::bad(complaint.as_str())),
        },
    }
}

/// The widest label of `rows`, and never less than the name column's least width.
pub open spec fn name_width_spec(rows: Seq<Row>) -> nat
    decreases rows.len(),
{
    if rows.len() == 0 {
        crate::tui::NAME_MIN_WIDTH as nat
    } else {
        let before = name_width_spec(rows.drop_last());
        let here = crate::tui::label_spec(rows.last()).len();
        if here > before {
            here
        } else {
            before
        }
    }
}

pub fn name_width(rows: &Vec<Row>) -> (r: usize)
    ensures
        r as nat == name_width_spec(rows@),
{
    let mut widest: usize = crate::tui::NAME_MIN_WIDTH;
    let mut i: usize = 0;
    while i < rows.len()
        invariant
            i <= rows@.len(),
            widest as nat == name_width_spec(rows@.subrange(0, i as int)),
        decreases rows.len() - i,
    {
        assert(rows@.subrange(0, i as int + 1).drop_last() =~= rows@.subrange(0, i as int));
        let label = crate::tui::label(&rows[i]);
        let here = label.unicode_len();
        if here > widest {
            widest = here;
        }
        i += 1;
    }
    assert(rows@.subrange(0, rows@.len() as int) =~= rows@);
    widest
}

} // verus!

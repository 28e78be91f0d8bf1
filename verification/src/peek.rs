//! Which log a row peeks, and one line of it with everything a terminal would act on taken out:
//! escape sequences, carriage returns and the rest of the control characters.

use vstd::prelude::*;
use vstd::string::*;

use crate::manifest::Project;
use crate::rows::{contract_home, contract_spec};
use crate::store::{project_key_spec, slot_dir, unit_file, Identity, Store};
use crate::text::{chars_of, control, decimal, decimal_string, is_control, push_char, str_eq, string_of, views};
use crate::unit::key_spec;

verus! {

pub const NO_REPO_LOG: &'static str = "a repo row has no single log; expand it with tab";

/// Which log a row peeks, decided before anything is opened.
#[derive(Debug, Clone, PartialEq, Eq)]
pub enum Source {
    Log { unit: String, path: String },
    Compose { service: String, root: String },
}

impl Source {
    /// The row's kind decides: only our own local units keep a log file; a compose service's output
    /// belongs to docker, and a repo row stands for a whole manifest rather than a unit.
    pub fn of(store: &Store, project: &Project, kind: &str, name: &str) -> (r: Result<Source, String>)
        ensures
            kind@ == "local"@ ==> (r matches Ok(Source::Log { unit, path }) && unit@ == name@
                && path@ == unit_file(
                slot_dir(store.root_spec(), project_key_spec(project.root@)),
                "logs"@,
                key_spec("local"@, name@),
                ".log"@,
            )),
            kind@ == "docker"@ ==> (r matches Ok(Source::Compose { service, root }) && service@
                == name@ && root@ == project.root@),
            kind@ != "local"@ && kind@ != "docker"@ ==> (r matches Err(e) && e@
                == "a repo row has no single log; expand it with tab"@),
    {
        proof {
            reveal_strlit("local");
            reveal_strlit("docker");
            reveal_strlit("a repo row has no single log; expand it with tab");
        }
        if str_eq(kind, crate::unit::LOCAL) {
            let identity = Identity { path: project.root.clone(), name: project.name.clone() };
            let key = crate::unit::key(crate::unit::LOCAL, name);
            let path = store.slot(&identity).log_path(key.as_str());
            Ok(Source::Log { unit: String::from_str(name), path })
        } else if str_eq(kind, crate::unit::DOCKER) {
            Ok(Source::Compose { service: String::from_str(name), root: project.root.clone() })
        } else {
            Err(String::from_str(NO_REPO_LOG))
        }
    }

    /// The peek's heading, paths spelled from `~` under `home`.
    pub fn heading(&self, home: &str) -> (r: String)
        ensures
            r@ == match self {
                Source::Log { unit, path } => unit@ + "  local   "@ + contract_spec(path@, home@),
                Source::Compose { service, root } => service@ + "  docker  compose logs in "@
                    + contract_spec(root@, home@),
            },
    {
        match self {
            Source::Log { unit, path } => {
                let mut r = unit.clone();
                r.append("  local   ");
                let p = contract_home(path.as_str(), home);
                r.append(p.as_str());
                r
            },
            Source::Compose { service, root } => {
                let mut r = service.clone();
                r.append("  docker  compose logs in ");
                let p = contract_home(root.as_str(), home);
                r.append(p.as_str());
                r
            },
        }
    }
}

/// How much an escape takes after the `ESC` itself: a CSI runs to its final byte in `@`..=`~`, an
/// OSC to a BEL or an `ESC \`, an escape with an intermediate byte takes one more, and anything
/// else takes the one character after the `ESC`.
pub open spec fn escape_len(rest: Seq<char>) -> nat {
    if rest.len() == 0 {
        0
    } else if rest[0] == '[' {
        csi_end(rest, 1)
    } else if rest[0] == ']' {
        osc_end(rest, 1)
    } else if '\u{20}' <= rest[0] && rest[0] <= '\u{2f}' {
        if rest.len() >= 2 {
            2
        } else {
            1
        }
    } else {
        1
    }
}

/// Where a CSI begun before `i` ends: just past its final byte, or the end of the line.
pub open spec fn csi_end(rest: Seq<char>, i: nat) -> nat
    decreases rest.len() - i,
{
    if i >= rest.len() {
        rest.len()
    } else if '\u{40}' <= rest[i as int] && rest[i as int] <= '\u{7e}' {
        i + 1
    } else {
        csi_end(rest, i + 1)
    }
}

/// Where an OSC begun before `i` ends: just past a BEL, or past the `\` of an `ESC \`, or the end
/// of the line.
pub open spec fn osc_end(rest: Seq<char>, i: nat) -> nat
    decreases rest.len() - i,
{
    if i >= rest.len() {
        rest.len()
    } else if rest[i as int] == '\u{7}' || (i >= 2 && rest[i - 1] == '\u{1b}' && rest[i as int] == '\\') {
        i + 1
    } else {
        osc_end(rest, i + 1)
    }
}

/// One line as a peek shows it: escapes and control characters gone, a tab spent as four spaces.
pub open spec fn readable_spec(line: Seq<char>) -> Seq<char>
    decreases line.len(),
{
    if line.len() == 0 {
        Seq::empty()
    } else {
        let c = line[0];
        if c == '\u{1b}' {
            let rest = line.drop_first();
            let k = escape_len(rest);
            if k >= rest.len() {
                Seq::empty()
            } else {
                readable_spec(rest.skip(k as int))
            }
        } else if c == '\t' {
            seq![' ', ' ', ' ', ' '] + readable_spec(line.drop_first())
        } else if is_control(c) {
            readable_spec(line.drop_first())
        } else {
            seq![c] + readable_spec(line.drop_first())
        }
    }
}

proof fn lemma_csi_end(rest: Seq<char>, i: nat)
    requires
        i <= rest.len(),
    ensures
        i <= csi_end(rest, i) <= rest.len(),
    decreases rest.len() - i,
{
    if i < rest.len() {
        lemma_csi_end(rest, i + 1);
    }
}

proof fn lemma_osc_end(rest: Seq<char>, i: nat)
    requires
        i <= rest.len(),
    ensures
        i <= osc_end(rest, i) <= rest.len(),
    decreases rest.len() - i,
{
    if i < rest.len() {
        lemma_osc_end(rest, i + 1);
    }
}

/// Where the escape whose `ESC` stands at `at` ends in `chars`.
fn escape_end(chars: &Vec<char>, at: usize) -> (r: usize)
    requires
        at < chars@.len(),
    ensures
        r == at + 1 + escape_len(chars@.skip(at + 1)),
        r <= chars@.len(),
{
    let n = chars.len();
    let ghost rest = chars@.skip(at + 1);
    let start = at + 1;
    if start >= n {
        return start;
    }
    let first = chars[start];
    assert(rest[0] == first);
    if first == '[' {
        let mut i = start + 1;
        proof {
            lemma_csi_end(rest, 1);
        }
        while i < n && !('\u{40}' <= chars[i] && chars[i] <= '\u{7e}')
            invariant
                start + 1 <= i <= n == chars@.len(),
                rest == chars@.skip(start as int),
                csi_end(rest, 1) == csi_end(rest, (i - start) as nat),
            decreases n - i,
        {
            assert(rest[(i - start) as int] == chars@[i as int]);
            i += 1;
        }
        if i < n {
            assert(rest[(i - start) as int] == chars@[i as int]);
            i + 1
        } else {
            n
        }
    } else if first == ']' {
        let mut i = start + 1;
        proof {
            lemma_osc_end(rest, 1);
        }
        while i < n && !(chars[i] == '\u{7}' || (i >= start + 2 && chars[i - 1] == '\u{1b}' && chars[i] == '\\'))
            invariant
                start + 1 <= i <= n == chars@.len(),
                rest == chars@.skip(start as int),
                osc_end(rest, 1) == osc_end(rest, (i - start) as nat),
            decreases n - i,
        {
            assert(rest[(i - start) as int] == chars@[i as int]);
            assert(i >= start + 2 ==> rest[(i - start) - 1] == chars@[i - 1]);
            i += 1;
        }
        if i < n {
            assert(rest[(i - start) as int] == chars@[i as int]);
            assert(i >= start + 2 ==> rest[(i - start) - 1] == chars@[i - 1]);
            i + 1
        } else {
            n
        }
    } else if '\u{20}' <= first && first <= '\u{2f}' {
        if start + 1 < n {
            start + 2
        } else {
            start + 1
        }
    } else {
        start + 1
    }
}

/// One line with everything a terminal would act on taken out.
pub fn readable(line: &str) -> (r: String)
    ensures
        r@ == readable_spec(line@),
{
    let chars = chars_of(line);
    let n = chars.len();
    let mut out = String::new();
    let mut i: usize = 0;
    assert(chars@.skip(0) =~= line@);
    while i < n
        invariant
            i <= n == chars@.len(),
            chars@ == line@,
            out@ + readable_spec(chars@.skip(i as int)) == readable_spec(line@),
        decreases n - i,
    {
        let c = chars[i];
        let ghost here = chars@.skip(i as int);
        assert(here[0] == c);
        assert(here.drop_first() =~= chars@.skip(i + 1));
        if c == '\u{1b}' {
            let end = escape_end(&chars, i);
            proof {
                assert(here.drop_first() =~= chars@.skip(i + 1));
                if end >= n {
                    assert(readable_spec(here) =~= Seq::<char>::empty());
                } else {
                    assert(here.drop_first().skip(escape_len(here.drop_first()) as int) =~= chars@.skip(end as int));
                }
            }
            if end >= n {
                assert(out@ + readable_spec(chars@.skip(n as int)) =~= out@);
                i = n;
            } else {
                i = end;
            }
        } else if c == '\t' {
            let ghost before = out@;
            push_char(&mut out, ' ');
            push_char(&mut out, ' ');
            push_char(&mut out, ' ');
            push_char(&mut out, ' ');
            assert(out@ =~= before + seq![' ', ' ', ' ', ' ']);
            assert(out@ + readable_spec(chars@.skip(i + 1)) =~= before + (seq![' ', ' ', ' ', ' '] + readable_spec(chars@.skip(i + 1))));
            i += 1;
        } else if control(c) {
            i += 1;
        } else {
            let ghost before = out@;
            push_char(&mut out, c);
            assert(out@ + readable_spec(chars@.skip(i + 1)) =~= before + (seq![c] + readable_spec(chars@.skip(i + 1))));
            i += 1;
        }
    }
    assert(readable_spec(chars@.skip(n as int)) =~= Seq::<char>::empty()) by {
        assert(chars@.skip(n as int).len() == 0);
    }
    assert(out@ =~= out@ + Seq::<char>::empty());
    out
}


/// How many lines stay scrollable: a log may grow for a week, so something has to give, and it is
/// the oldest lines.
pub const CAPACITY: usize = 4000;

/// What the position says before any line has arrived.
pub const WAITING: &'static str = "waiting for output…";

/// What `String::from_utf8_lossy` makes of `bytes`.
pub uninterp spec fn utf8_lossy(bytes: Seq<u8>) -> Seq<char>;

/// `String::from_utf8_lossy`: the bytes as text, each sequence that is not UTF-8 replaced.
#[verifier::external_body]
fn lossy(bytes: &[u8]) -> (r: String)
    ensures
        r@ == utf8_lossy(bytes@),
{
    String::from_utf8_lossy(bytes).into_owned()
}

/// The complete lines at the head of `text`, each with its newline, and what follows the last one.
pub open spec fn taken_lines(text: Seq<char>) -> (Seq<Seq<char>>, Seq<char>)
    decreases text.len(),
{
    match crate::text::first_index(text, '\n') {
        None => (Seq::empty(), text),
        Some(i) => {
            proof {
                lemma_first_index_bound(text, '\n');
            }
            let (more, rest) = taken_lines(text.skip(i + 1));
            (seq![text.take(i + 1)] + more, rest)
        },
    }
}

pub proof fn lemma_first_index_bound(s: Seq<char>, c: char)
    ensures
        crate::text::first_index(s, c) matches Some(i) ==> 0 <= i < s.len() && s[i] == c,
    decreases s.len(),
{
    if s.len() > 0 && s[0] != c {
        lemma_first_index_bound(s.drop_first(), c);
    }
}

/// One more line kept: the oldest goes when the capacity is passed, and the screen moves with it.
pub open spec fn pushed_one(lines: Seq<Seq<char>>, top: nat, line: Seq<char>) -> (Seq<Seq<char>>, nat) {
    let grown = lines.push(line);
    if grown.len() > CAPACITY {
        let excess = (grown.len() - CAPACITY) as nat;
        (grown.skip(excess as int), if top >= excess { (top - excess) as nat } else { 0 })
    } else {
        (grown, top)
    }
}

/// `fresh` kept after `lines`: what passes the capacity leaves from the oldest end, and the screen
/// moves with what left.
pub open spec fn kept(lines: Seq<Seq<char>>, top: nat, fresh: Seq<Seq<char>>) -> (Seq<Seq<char>>, nat) {
    let grown = lines + fresh;
    let excess: nat = if grown.len() > CAPACITY {
        (grown.len() - CAPACITY) as nat
    } else {
        0
    };
    (grown.skip(excess as int), if top >= excess { (top - excess) as nat } else { 0 })
}

proof fn lemma_kept_push(lines: Seq<Seq<char>>, top: nat, fresh: Seq<Seq<char>>, line: Seq<char>)
    requires
        lines.len() <= CAPACITY,
    ensures
        kept(lines, top, fresh.push(line)) == pushed_one(kept(lines, top, fresh).0, kept(lines, top, fresh).1, line),
{
    let g = lines + fresh;
    assert(lines + fresh.push(line) =~= g.push(line));
    let (l, t) = kept(lines, top, fresh);
    if g.len() >= CAPACITY {
        assert(l.push(line) =~= g.push(line).skip(g.len() - CAPACITY));
        assert(l.push(line).skip(1) =~= g.push(line).skip(g.len() + 1 - CAPACITY));
    } else {
        assert(l =~= g);
    }
}

/// Where the screen may go: as far as leaves a screenful of lines below it.
pub open spec fn ceiling_of(len: nat, viewport: nat) -> nat {
    if len > viewport {
        (len - viewport) as nat
    } else {
        0
    }
}

/// Where a manual move of `delta` lines takes the top of the screen: never above the first line,
/// never past the ceiling.
pub open spec fn scrolled(top: nat, delta: int, ceiling: nat) -> nat {
    if delta == 0 {
        top
    } else if delta < 0 {
        if top + delta < 0 {
            0
        } else {
            (top + delta) as nat
        }
    } else if top + delta < ceiling {
        (top + delta) as nat
    } else {
        ceiling
    }
}

/// A line clipped to `width` characters; a long line is cut, never reflowed.
pub open spec fn clipped_to(line: Seq<char>, width: nat) -> Seq<char> {
    if line.len() <= width {
        line
    } else {
        line.take(width as int)
    }
}

/// The log under a peek as it is on screen: the lines kept, the tail of the last read held back
/// until its newline arrives, where the screen sits, whether it follows the newest line, how tall
/// it was last drawn, and what went wrong reading.
pub struct Peek {
    heading: String,
    lines: Vec<String>,
    partial: String,
    top: usize,
    follow: bool,
    viewport: usize,
    trouble: Option<String>,
}

impl Peek {
    pub closed spec fn heading_view(&self) -> Seq<char> {
        self.heading@
    }

    pub closed spec fn lines_view(&self) -> Seq<Seq<char>> {
        views(self.lines@)
    }

    pub closed spec fn partial_view(&self) -> Seq<char> {
        self.partial@
    }

    pub closed spec fn top_view(&self) -> nat {
        self.top as nat
    }

    pub closed spec fn follow_view(&self) -> bool {
        self.follow
    }

    pub closed spec fn viewport_view(&self) -> nat {
        self.viewport as nat
    }

    pub closed spec fn trouble_view(&self) -> Option<Seq<char>> {
        crate::text::opt_view(self.trouble)
    }

    /// No more lines than the capacity, the screen on one of them or at the start, and room for at
    /// least one line.
    pub open spec fn wf(&self) -> bool {
        &&& self.lines_view().len() <= CAPACITY
        &&& self.top_view() <= self.lines_view().len()
        &&& self.viewport_view() >= 1
    }

    pub open spec fn ceiling(&self) -> nat {
        ceiling_of(self.lines_view().len(), self.viewport_view())
    }

    /// A peek with nothing read yet, following.
    pub fn new(heading: String) -> (r: Peek)
        ensures
            r.wf(),
            r.heading_view() == heading@,
            r.lines_view().len() == 0,
            r.partial_view().len() == 0,
            r.top_view() == 0,
            r.follow_view(),
            r.viewport_view() == 1,
            r.trouble_view() is None,
    {
        let lines: Vec<String> = Vec::new();
        assert(views(lines@) =~= Seq::<Seq<char>>::empty());
        Peek { heading, lines, partial: String::new(), top: 0, follow: true, viewport: 1, trouble: None }
    }

    pub fn heading(&self) -> (r: &str)
        ensures
            r@ == self.heading_view(),
    {
        self.heading.as_str()
    }

    pub fn following(&self) -> (r: bool)
        ensures
            r == self.follow_view(),
    {
        self.follow
    }

    pub fn toggle_follow(&mut self)
        requires
            old(self).wf(),
        ensures
            final(self).wf(),
            final(self).follow_view() == !old(self).follow_view(),
            final(self).lines_view() == old(self).lines_view(),
            final(self).partial_view() == old(self).partial_view(),
            final(self).top_view() == old(self).top_view(),
            final(self).viewport_view() == old(self).viewport_view(),
            final(self).trouble_view() == old(self).trouble_view(),
            final(self).heading_view() == old(self).heading_view(),
    {
        self.follow = !self.follow;
    }

    pub fn trouble(&self) -> (r: Option<&str>)
        ensures
            match r {
                Some(t) => self.trouble_view() == Some(t@),
                None => self.trouble_view() is None,
            },
    {
        match &self.trouble {
            Some(t) => Some(t.as_str()),
            None => None,
        }
    }

    /// Reading the source went wrong, and the footer says why.
    pub fn troubled(&mut self, why: String)
        requires
            old(self).wf(),
        ensures
            final(self).wf(),
            final(self).trouble_view() == Some(why@),
            final(self).lines_view() == old(self).lines_view(),
            final(self).partial_view() == old(self).partial_view(),
            final(self).top_view() == old(self).top_view(),
            final(self).follow_view() == old(self).follow_view(),
            final(self).viewport_view() == old(self).viewport_view(),
            final(self).heading_view() == old(self).heading_view(),
    {
        self.trouble = Some(why);
    }

    fn push(&mut self, line: String)
        requires
            old(self).wf(),
        ensures
            final(self).wf(),
            (final(self).lines_view(), final(self).top_view()) == pushed_one(old(self).lines_view(), old(self).top_view(), line@),
            final(self).partial_view() == old(self).partial_view(),
            final(self).follow_view() == old(self).follow_view(),
            final(self).viewport_view() == old(self).viewport_view(),
            final(self).trouble_view() == old(self).trouble_view(),
            final(self).heading_view() == old(self).heading_view(),
    {
        let ghost before = self.lines@;
        self.lines.push(line);
        assert(views(self.lines@) =~= views(before).push(line@));
        if self.lines.len() > CAPACITY {
            let excess = self.lines.len() - CAPACITY;
            let ghost grown = self.lines@;
            let mut rest: Vec<String> = Vec::new();
            let mut i: usize = excess;
            while i < self.lines.len()
                invariant
                    excess <= i <= self.lines@.len(),
                    self.lines@ == grown,
                    rest@ == grown.subrange(excess as int, i as int),
                decreases self.lines.len() - i,
            {
                rest.push(self.lines[i].clone());
                assert(rest@ =~= grown.subrange(excess as int, i as int + 1));
                i += 1;
            }
            self.lines = rest;
            assert(views(self.lines@) =~= views(grown).skip(excess as int));
            self.top = if self.top >= excess {
                self.top - excess
            } else {
                0
            };
        }
    }

    /// The log began again under the peek: everything on screen is history, so it goes, and the
    /// fresh generation starts under a marker.
    pub fn restarted(&mut self)
        requires
            old(self).wf(),
        ensures
            final(self).wf(),
            final(self).lines_view() == seq![crate::tail::RESTARTED@],
            final(self).partial_view().len() == 0,
            final(self).top_view() == 0,
            final(self).follow_view() == old(self).follow_view(),
            final(self).viewport_view() == old(self).viewport_view(),
            final(self).trouble_view() == old(self).trouble_view(),
            final(self).heading_view() == old(self).heading_view(),
    {
        self.lines = Vec::new();
        self.partial = String::new();
        self.top = 0;
        assert(views(self.lines@) =~= Seq::<Seq<char>>::empty());
        self.push(String::from_str(crate::tail::RESTARTED));
        assert(views(self.lines@) =~= seq![crate::tail::RESTARTED@]);
    }

    /// What the source produced since the last read: every line it completes is kept, made
    /// readable, and what follows the last newline waits for the rest of its line.
    pub fn absorb(&mut self, bytes: &[u8])
        requires
            old(self).wf(),
        ensures
            final(self).wf(),
            bytes@.len() == 0 ==> *final(self) == *old(self),
            bytes@.len() > 0 ==> ({
                let (done, rest) = taken_lines(old(self).partial_view() + utf8_lossy(bytes@));
                &&& (final(self).lines_view(), final(self).top_view()) == kept(
                    old(self).lines_view(),
                    old(self).top_view(),
                    done.map_values(|l: Seq<char>| readable_spec(l)),
                )
                &&& final(self).partial_view() == rest
            }),
            final(self).follow_view() == old(self).follow_view(),
            final(self).viewport_view() == old(self).viewport_view(),
            final(self).trouble_view() == old(self).trouble_view(),
            final(self).heading_view() == old(self).heading_view(),
    {
        if bytes.len() == 0 {
            return;
        }
        let text = lossy(bytes);
        let mut all = chars_of(self.partial.as_str());
        let more = chars_of(text.as_str());
        let mut k: usize = 0;
        let ghost head = all@;
        while k < more.len()
            invariant
                k <= more@.len(),
                all@ == head + more@.subrange(0, k as int),
            decreases more.len() - k,
        {
            all.push(more[k]);
            assert(more@.subrange(0, k as int + 1) =~= more@.subrange(0, k as int).push(more@[k as int]));
            k += 1;
        }
        assert(more@.subrange(0, more@.len() as int) =~= more@);
        let ghost whole = all@;
        assert(whole == old(self).partial_view() + utf8_lossy(bytes@));
        let ghost lines0 = self.lines_view();
        let ghost top0 = self.top_view();
        let ghost done_all = taken_lines(whole).0;
        let n = all.len();
        let mut start: usize = 0;
        let ghost mut done: Seq<Seq<char>> = Seq::empty();
        assert(whole.skip(0) =~= whole);
        loop
            invariant_except_break
                start <= n == all@.len(),
                all@ == whole,
                self.wf(),
                lines0.len() <= CAPACITY,
                taken_lines(whole) == (done + taken_lines(whole.skip(start as int)).0, taken_lines(whole.skip(start as int)).1),
                (self.lines_view(), self.top_view()) == kept(lines0, top0, done.map_values(|l: Seq<char>| readable_spec(l))),
                self.follow_view() == old(self).follow_view(),
                self.viewport_view() == old(self).viewport_view(),
                self.trouble_view() == old(self).trouble_view(),
                self.heading_view() == old(self).heading_view(),
            ensures
                start <= n,
                self.wf(),
                taken_lines(whole) == (done, whole.skip(start as int)),
                (self.lines_view(), self.top_view()) == kept(lines0, top0, done.map_values(|l: Seq<char>| readable_spec(l))),
                self.follow_view() == old(self).follow_view(),
                self.viewport_view() == old(self).viewport_view(),
                self.trouble_view() == old(self).trouble_view(),
                self.heading_view() == old(self).heading_view(),
            decreases n - start,
        {
            let ghost tail = whole.skip(start as int);
            match crate::text::find_char(&all, start, n, '\n') {
                None => {
                    proof {
                        crate::text::lemma_first_index(tail, '\n', tail.len() as int);
                        assert(taken_lines(tail) == (Seq::<Seq<char>>::empty(), tail));
                        assert(done + Seq::<Seq<char>>::empty() =~= done);
                    }
                    break;
                },
                Some(i) => {
                    proof {
                        crate::text::lemma_first_index(tail, '\n', i - start);
                        assert(tail.skip(i - start + 1) =~= whole.skip(i + 1));
                        assert(tail.take(i - start + 1) =~= whole.subrange(start as int, i + 1));
                        assert(taken_lines(tail) == (seq![whole.subrange(start as int, i + 1)] + taken_lines(whole.skip(i + 1)).0, taken_lines(whole.skip(i + 1)).1));
                        assert(done + (seq![whole.subrange(start as int, i + 1)] + taken_lines(whole.skip(i + 1)).0) =~= done.push(whole.subrange(start as int, i + 1)) + taken_lines(whole.skip(i + 1)).0);
                    }
                    let line = string_of(&all.as_slice()[start..i + 1]);
                    let shown = readable(line.as_str());
                    proof {
                        lemma_kept_push(lines0, top0, done.map_values(|l: Seq<char>| readable_spec(l)), shown@);
                        assert(done.push(line@).map_values(|l: Seq<char>| readable_spec(l)) =~= done.map_values(|l: Seq<char>| readable_spec(l)).push(shown@));
                    }
                    self.push(shown);
                    proof {
                        done = done.push(line@);
                    }
                    start = i + 1;
                },
            }
        }
        self.partial = string_of(&all.as_slice()[start..n]);
        assert(self.partial@ =~= whole.skip(start as int));
    }

    /// Moves the screen `delta` lines, towards the newest when positive. Any manual move stops
    /// following: the two would otherwise fight over where the screen sits.
    pub fn scroll(&mut self, delta: isize)
        requires
            old(self).wf(),
        ensures
            final(self).wf(),
            !final(self).follow_view(),
            final(self).top_view() == scrolled(old(self).top_view(), delta as int, old(self).ceiling()),
            final(self).lines_view() == old(self).lines_view(),
            final(self).partial_view() == old(self).partial_view(),
            final(self).viewport_view() == old(self).viewport_view(),
            final(self).trouble_view() == old(self).trouble_view(),
            final(self).heading_view() == old(self).heading_view(),
    {
        self.follow = false;
        let ceiling: usize = if self.lines.len() > self.viewport {
            self.lines.len() - self.viewport
        } else {
            0
        };
        assert(self.lines@.len() == self.lines_view().len());
        if delta < 0 {
            let back: usize = if delta == isize::MIN {
                (isize::MAX as usize) + 1
            } else {
                (-delta) as usize
            };
            self.top = if back > self.top {
                0
            } else {
                self.top - back
            };
        } else if delta > 0 {
            let ahead = delta as usize;
            self.top = if ahead < ceiling && self.top < ceiling - ahead {
                self.top + ahead
            } else {
                ceiling
            };
        }
    }

    /// Moves the screen `pages` screenfuls.
    pub fn page(&mut self, pages: isize)
        requires
            old(self).wf(),
            old(self).viewport_view() <= isize::MAX,
            isize::MIN <= pages * old(self).viewport_view() <= isize::MAX,
        ensures
            final(self).wf(),
            !final(self).follow_view(),
            final(self).top_view() == scrolled(old(self).top_view(), pages * old(self).viewport_view(), old(self).ceiling()),
            final(self).lines_view() == old(self).lines_view(),
            final(self).partial_view() == old(self).partial_view(),
            final(self).viewport_view() == old(self).viewport_view(),
            final(self).trouble_view() == old(self).trouble_view(),
            final(self).heading_view() == old(self).heading_view(),
    {
        let v = self.viewport as isize;
        assert(v == self.viewport_view());
        let step = pages * v;
        self.scroll(step);
    }

    /// The lines on screen in a space `height` lines tall and `width` wide, each clipped. Drawing is
    /// where the screen's height becomes known, so paging has a page to work with; a following peek
    /// sits at the newest lines.
    pub fn view(&mut self, height: usize, width: usize) -> (r: Vec<String>)
        requires
            old(self).wf(),
        ensures
            final(self).wf(),
            final(self).viewport_view() == if height >= 1 { height as nat } else { 1 },
            final(self).top_view() == if old(self).follow_view() {
                final(self).ceiling()
            } else if old(self).top_view() <= final(self).ceiling() {
                old(self).top_view()
            } else {
                final(self).ceiling()
            },
            views(r@) == old(self).lines_view().subrange(
                final(self).top_view() as int,
                if final(self).top_view() + final(self).viewport_view() <= old(self).lines_view().len() {
                    (final(self).top_view() + final(self).viewport_view()) as int
                } else {
                    old(self).lines_view().len() as int
                },
            ).map_values(|l: Seq<char>| clipped_to(l, width as nat)),
            final(self).lines_view() == old(self).lines_view(),
            final(self).partial_view() == old(self).partial_view(),
            final(self).follow_view() == old(self).follow_view(),
            final(self).trouble_view() == old(self).trouble_view(),
            final(self).heading_view() == old(self).heading_view(),
    {
        self.viewport = if height >= 1 {
            height
        } else {
            1
        };
        let len = self.lines.len();
        assert(self.lines@.len() == self.lines_view().len());
        let ceiling: usize = if len > self.viewport {
            len - self.viewport
        } else {
            0
        };
        self.top = if self.follow || self.top > ceiling {
            ceiling
        } else {
            self.top
        };
        let end: usize = if self.viewport <= len - self.top {
            self.top + self.viewport
        } else {
            len
        };
        let ghost lv = self.lines_view();
        let mut shown: Vec<String> = Vec::new();
        let mut i: usize = self.top;
        while i < end
            invariant
                self.top <= i <= end <= len == self.lines@.len(),
                lv == views(self.lines@),
                views(shown@) == lv.subrange(self.top as int, i as int).map_values(|l: Seq<char>| clipped_to(l, width as nat)),
            decreases end - i,
        {
            let line = self.lines[i].as_str();
            let n = line.unicode_len();
            let cut = if n <= width {
                String::from_str(line)
            } else {
                let c = String::from_str(line.substring_char(0, width));
                assert(c@ =~= line@.take(width as int));
                c
            };
            let ghost before = shown@;
            shown.push(cut);
            assert(views(shown@) =~= views(before).push(cut@));
            assert(lv.subrange(self.top as int, i as int + 1).map_values(|l: Seq<char>| clipped_to(l, width as nat)) =~= lv.subrange(self.top as int, i as int).map_values(|l: Seq<char>| clipped_to(l, width as nat)).push(clipped_to(lv[i as int], width as nat)));
            i += 1;
        }
        shown
    }

    /// Where the screen sits in the log, or that nothing has arrived yet.
    pub open spec fn position_spec(&self) -> Seq<char> {
        let total = self.lines_view().len();
        if total == 0 {
            WAITING@
        } else {
            let at = self.top_view() + self.viewport_view();
            decimal(if at <= total { at } else { total }) + "/"@ + decimal(total)
        }
    }

    pub fn position(&self) -> (r: String)
        requires
            self.wf(),
            self.top_view() + self.viewport_view() <= usize::MAX,
        ensures
            r@ == self.position_spec(),
    {
        let total = self.lines.len();
        assert(self.lines@.len() == self.lines_view().len());
        if total == 0 {
            return String::from_str(WAITING);
        }
        let at = self.top + self.viewport;
        let shown = if at <= total {
            at
        } else {
            total
        };
        let mut r = decimal_string(shown as u64);
        r.append("/");
        let t = decimal_string(total as u64);
        r.append(t.as_str());
        r
    }
}

/// A peek keeps no more lines than its capacity, whatever it is fed: the oldest make room.
pub proof fn law_a_peek_never_holds_more_than_its_capacity(lines: Seq<Seq<char>>, top: nat, fresh: Seq<Seq<char>>)
    requires
        lines.len() <= CAPACITY,
    ensures
        kept(lines, top, fresh).0.len() <= CAPACITY,
        fresh.len() <= CAPACITY ==> kept(lines, top, fresh).0.subrange(
            kept(lines, top, fresh).0.len() - fresh.len(),
            kept(lines, top, fresh).0.len() as int,
        ) == fresh,
{
    let g = lines + fresh;
    if fresh.len() <= CAPACITY {
        let k = kept(lines, top, fresh).0;
        assert(k.subrange(k.len() - fresh.len(), k.len() as int) =~= fresh);
    }
}

} // verus!

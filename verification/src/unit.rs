//! The unit state model: the states a row can be in, how a unit ended, who else holds a unit name,
//! and the one spelling each of them has in the rows.

use vstd::prelude::*;
use vstd::string::*;

use crate::json::{as_i64, as_str, as_u64, get, get_spec, i64_spec, keys_of, str_spec, u64_spec, Json, Num};
use crate::text::{
    chars_of, decimal, decimal_string, push_char, signed_decimal, signed_string, str_eq,
    two_digits, zero_padded,
};

verus! {

/// The kind of a unit the daemon forks and is the parent of.
pub const LOCAL: &'static str = "local";

/// The kind of a unit compose runs.
pub const DOCKER: &'static str = "docker";

/// A unit's key: its kind, a hyphen, its name.
pub open spec fn key_spec(kind: Seq<char>, name: Seq<char>) -> Seq<char> {
    kind + seq!['-'] + name
}

/// The state key: a local and a docker unit may share a name, and the kind keeps them apart.
pub fn key(kind: &str, name: &str) -> (r: String)
    ensures
        r@ == key_spec(kind@, name@),
{
    let mut r = String::from_str(kind);
    push_char(&mut r, '-');
    r.append(name);
    r
}

/// The name a key holds for `kind`, when the key is of that kind: the key must start with the kind
/// and a hyphen.
pub open spec fn name_of_spec(key: Seq<char>, kind: Seq<char>) -> Option<Seq<char>> {
    if key.len() > kind.len() && key.subrange(0, kind.len() as int) == kind && key[kind.len() as int]
        == '-' {
        Some(key.subrange(kind.len() as int + 1, key.len() as int))
    } else {
        None
    }
}

/// The name back out of a key, when the key is of that kind.
pub fn name_of<'a>(key: &'a str, kind: &str) -> (r: Option<&'a str>)
    ensures
        r matches Some(name) ==> name_of_spec(key@, kind@) == Some(name@),
        r is None <==> name_of_spec(key@, kind@) is None,
{
    let k = kind.unicode_len();
    let n = key.unicode_len();
    if n <= k {
        return None;
    }
    if !crate::text::starts_with(key, kind) {
        return None;
    }
    if key.get_char(k) != '-' {
        return None;
    }
    Some(key.substring_char(k + 1, n))
}

/// A key yields back the name it was made from, to the kind that made it.
pub proof fn law_name_of_key(kind: Seq<char>, name: Seq<char>)
    ensures
        name_of_spec(key_spec(kind, name), kind) == Some(name),
{
    let k = key_spec(kind, name);
    assert(k.subrange(0, kind.len() as int) =~= kind);
    assert(k.subrange(kind.len() as int + 1, k.len() as int) =~= name);
}

/// What a row says a unit is doing.
#[derive(Debug, Clone, Copy, PartialEq, Eq, Structural)]
pub enum State {
    Down,
    Starting,
    Up,
    Done,
    Dead,
    Unknown,
}

/// Every state, in the order they are listed.
pub open spec fn all_states() -> Seq<State> {
    seq![State::Down, State::Starting, State::Up, State::Done, State::Dead, State::Unknown]
}

impl State {
    /// The state's word in the rows and on the wire.
    pub open spec fn label_spec(self) -> Seq<char> {
        match self {
            State::Down => seq!['d', 'o', 'w', 'n'],
            State::Starting => seq!['s', 't', 'a', 'r', 't', 'i', 'n', 'g'],
            State::Up => seq!['u', 'p'],
            State::Done => seq!['d', 'o', 'n', 'e'],
            State::Dead => seq!['d', 'e', 'a', 'd'],
            State::Unknown => seq!['u', 'n', 'k', 'n', 'o', 'w', 'n'],
        }
    }

    /// The state's glyph in the first column.
    pub open spec fn glyph_spec(self) -> Seq<char> {
        match self {
            State::Down => seq!['\u{b7}'],
            State::Starting => seq!['\u{25d0}'],
            State::Up => seq!['\u{25cf}'],
            State::Done => seq!['\u{2714}'],
            State::Dead => seq!['\u{2717}'],
            State::Unknown => seq!['?'],
        }
    }

    pub fn label(self) -> (r: &'static str)
        ensures
            r@ == self.label_spec(),
    {
        match self {
            State::Down => {
                proof {
                    reveal_strlit("down");
                }
                "down"
            },
            State::Starting => {
                proof {
                    reveal_strlit("starting");
                }
                "starting"
            },
            State::Up => {
                proof {
                    reveal_strlit("up");
                }
                "up"
            },
            State::Done => {
                proof {
                    reveal_strlit("done");
                }
                "done"
            },
            State::Dead => {
                proof {
                    reveal_strlit("dead");
                }
                "dead"
            },
            State::Unknown => {
                proof {
                    reveal_strlit("unknown");
                }
                "unknown"
            },
        }
    }

    pub fn glyph(self) -> (r: &'static str)
        ensures
            r@ == self.glyph_spec(),
    {
        match self {
            State::Down => {
                proof {
                    reveal_strlit("\u{b7}");
                }
                "\u{b7}"
            },
            State::Starting => {
                proof {
                    reveal_strlit("\u{25d0}");
                }
                "\u{25d0}"
            },
            State::Up => {
                proof {
                    reveal_strlit("\u{25cf}");
                }
                "\u{25cf}"
            },
            State::Done => {
                proof {
                    reveal_strlit("\u{2714}");
                }
                "\u{2714}"
            },
            State::Dead => {
                proof {
                    reveal_strlit("\u{2717}");
                }
                "\u{2717}"
            },
            State::Unknown => {
                proof {
                    reveal_strlit("?");
                }
                "?"
            },
        }
    }

    /// The state a label names, if any: the first state whose label it is.
    pub open spec fn read_spec(label: Seq<char>) -> Option<State> {
        if label == State::Down.label_spec() {
            Some(State::Down)
        } else if label == State::Starting.label_spec() {
            Some(State::Starting)
        } else if label == State::Up.label_spec() {
            Some(State::Up)
        } else if label == State::Done.label_spec() {
            Some(State::Done)
        } else if label == State::Dead.label_spec() {
            Some(State::Dead)
        } else if label == State::Unknown.label_spec() {
            Some(State::Unknown)
        } else {
            None
        }
    }

    pub fn read(label: &str) -> (r: Option<State>)
        ensures
            r == State::read_spec(label@),
    {
        let states = [State::Down, State::Starting, State::Up, State::Done, State::Dead, State::Unknown];
        let mut i: usize = 0;
        while i < 6
            invariant
                i <= 6,
                states@ == all_states(),
                forall|j: int| 0 <= j < i ==> label@ != (#[trigger] all_states()[j]).label_spec(),
            decreases 6 - i,
        {
            let state = states[i];
            if str_eq(state.label(), label) {
                return Some(state);
            }
            i += 1;
        }
        None
    }
}

/// Every state survives a round trip through its label, no two states share one, and a word that
/// is no state's label, such as `crashed`, reads as none.
pub proof fn law_state_label_round_trip(state: State)
    ensures
        State::read_spec(state.label_spec()) == Some(state),
        State::read_spec("crashed"@) is None,
{
    reveal_strlit("crashed");
    let d = State::Down.label_spec();
    let s = State::Starting.label_spec();
    let u = State::Up.label_spec();
    let o = State::Done.label_spec();
    let e = State::Dead.label_spec();
    let k = State::Unknown.label_spec();
    assert(d != s && d != u && d != o && d != e && d != k) by {
        assert(d.len() != s.len() && d.len() != u.len() && d[2] != o[2] && d[1] != e[1] && d.len() != k.len());
    }
    assert(s != u && s != o && s != e && s != k) by {
        assert(s.len() != u.len() && s.len() != o.len() && s.len() != e.len() && s.len() != k.len());
    }
    assert(u != o && u != e && u != k) by {
        assert(u.len() != o.len() && u.len() != e.len() && u.len() != k.len());
    }
    assert(o != e && o != k) by {
        assert(o[1] != e[1] && o.len() != k.len());
    }
    assert(e != k) by {
        assert(e.len() != k.len());
    }
}

/// How a local unit ended, as the daemon's `wait()` reported it.
#[derive(Debug, Clone, Copy, PartialEq, Eq)]
pub enum Exit {
    Code(i32),
    Signal(i32),
}

impl Exit {
    pub open spec fn label_spec(self) -> Seq<char> {
        match self {
            Exit::Code(code) => seq!['e', 'x', 'i', 't', ' '] + signed_decimal(code as int),
            Exit::Signal(signal) => seq!['s', 'i', 'g', 'n', 'a', 'l', ' '] + signed_decimal(
                signal as int,
            ),
        }
    }

    pub fn label(self) -> (r: String)
        ensures
            r@ == self.label_spec(),
    {
        let (word, number) = match self {
            Exit::Code(code) => {
                proof {
                    reveal_strlit("exit ");
                }
                ("exit ", code)
            },
            Exit::Signal(signal) => {
                proof {
                    reveal_strlit("signal ");
                }
                ("signal ", signal)
            },
        };
        let mut r = String::from_str(word);
        let digits = signed_string(number as i64);
        r.append(digits.as_str());
        r
    }
}

/// Another project running the same unit name.
#[derive(Debug, Clone, PartialEq, Eq)]
pub struct Claim {
    pub project: String,
    pub pid: u32,
}

impl Claim {
    pub open spec fn label_spec(self) -> Seq<char> {
        seq!['h', 'e', 'l', 'd', ' ', 'b', 'y', ' '] + self.project@ + seq![',', ' ', 'p', 'i', 'd', ' ']
            + decimal(self.pid as nat)
    }

    pub fn label(&self) -> (r: String)
        ensures
            r@ == self.label_spec(),
    {
        proof {
            reveal_strlit("held by ");
            reveal_strlit(", pid ");
        }
        let mut r = String::from_str("held by ");
        r.append(self.project.as_str());
        r.append(", pid ");
        let digits = decimal_string(self.pid as u64);
        r.append(digits.as_str());
        r
    }
}

/// What one row needs to know. Uptime is in milliseconds.
#[derive(Debug, Clone, PartialEq, Eq)]
pub struct Status {
    pub state: State,
    pub uptime: Option<u64>,
    pub exit: Option<Exit>,
    pub held: Option<Claim>,
    /// The note column, when the state itself carries one.
    pub note: Option<String>,
}

impl Status {
    /// A status that says its state and nothing else.
    pub open spec fn bare(state: State) -> Status {
        Status { state, uptime: None, exit: None, held: None, note: None }
    }

    pub fn of(state: State) -> (r: Status)
        ensures
            r == Status::bare(state),
    {
        Status { state, uptime: None, exit: None, held: None, note: None }
    }

    /// The uptime-or-exit column: a running unit shows how long, anything else how it ended.
    pub open spec fn timing_spec(self) -> Seq<char> {
        match (self.uptime, self.exit) {
            (Some(uptime), _) => elapsed_spec(uptime as nat),
            (None, Some(exit)) => exit.label_spec(),
            (None, None) => Seq::empty(),
        }
    }

    pub fn timing(&self) -> (r: String)
        ensures
            r@ == self.timing_spec(),
    {
        match (self.uptime, self.exit) {
            (Some(uptime), _) => elapsed(uptime),
            (None, Some(exit)) => exit.label(),
            (None, None) => String::new(),
        }
    }
}

/// The uptime column for `ms` milliseconds: the largest two units and nothing smaller.
pub open spec fn elapsed_spec(ms: nat) -> Seq<char> {
    let total = ms / 1000;
    let (minutes, seconds) = (total / 60, total % 60);
    let (hours, minutes) = (minutes / 60, minutes % 60);
    let (days, hours) = (hours / 24, hours % 24);
    if days == 0 && hours == 0 && minutes == 0 {
        decimal(seconds) + seq!['s']
    } else if days == 0 && hours == 0 {
        decimal(minutes) + seq!['m'] + zero_padded(seconds, 2) + seq!['s']
    } else if days == 0 {
        decimal(hours) + seq!['h'] + zero_padded(minutes, 2) + seq!['m']
    } else {
        decimal(days) + seq!['d'] + zero_padded(hours, 2) + seq!['h']
    }
}

/// The uptime column for an uptime of `uptime_ms` milliseconds.
pub fn elapsed(uptime_ms: u64) -> (r: String)
    ensures
        r@ == elapsed_spec(uptime_ms as nat),
{
    let total = uptime_ms / 1000;
    let (minutes, seconds) = (total / 60, total % 60);
    let (hours, minutes) = (minutes / 60, minutes % 60);
    let (days, hours) = (hours / 24, hours % 24);
    let (big, unit_big, small, unit_small) = if days == 0 && hours == 0 && minutes == 0 {
        let mut r = decimal_string(seconds);
        push_char(&mut r, 's');
        return r;
    } else if days == 0 && hours == 0 {
        (minutes, 'm', seconds, 's')
    } else if days == 0 {
        (hours, 'h', minutes, 'm')
    } else {
        (days, 'd', hours, 'h')
    };
    let mut r = decimal_string(big);
    push_char(&mut r, unit_big);
    let padded = two_digits(small);
    r.append(padded.as_str());
    push_char(&mut r, unit_small);
    r
}

/// An uptime never outgrows its nine-wide column, for any uptime under a hundred thousand days.
pub proof fn law_elapsed_fits_its_column(ms: nat)
    requires
        ms / 1000 / 60 / 60 / 24 < 100000,
    ensures
        elapsed_spec(ms).len() <= 9,
{
    let total = ms / 1000;
    let (minutes, seconds) = (total / 60, total % 60);
    let (hours, minutes) = (minutes / 60, minutes % 60);
    let (days, hours) = (hours / 24, hours % 24);
    lemma_small_decimal(seconds);
    lemma_small_decimal(minutes);
    lemma_small_decimal(hours);
    assert(crate::text::pow10(5) == 100000) by { reveal_with_fuel(crate::text::pow10, 6); }
    crate::text::lemma_decimal_len_bound(days, 5);
}

/// A number under a hundred takes at most two digits, and two when padded to two.
proof fn lemma_small_decimal(n: nat)
    requires
        n < 100,
    ensures
        decimal(n).len() <= 2,
        zero_padded(n, 2).len() == 2,
{
    assert(crate::text::pow10(2) == 100) by { reveal_with_fuel(crate::text::pow10, 3); }
    crate::text::lemma_decimal_len_bound(n, 2);
    if n >= 10 {
        crate::text::lemma_decimal_len_at_least_two(n);
    } else {
        assert(decimal(n).len() == 1);
    }
}


/// A whole number as JSON writes it.
pub open spec fn num_of(n: int) -> Num {
    if n >= 0 {
        Num::Pos(n as u64)
    } else {
        Num::Neg(n as i64)
    }
}

pub fn num(n: i64) -> (r: Num)
    ensures
        r == num_of(n as int),
{
    if n >= 0 {
        Num::Pos(n as u64)
    } else {
        Num::Neg(n)
    }
}


/// The member appended last answers for its own name, unless an earlier one already did.
proof fn lemma_member_push(members: Seq<(String, Json)>, entry: (String, Json))
    ensures
        forall|key: Seq<char>| #[trigger] crate::json::member(members.push(entry), key) == match crate::json::member(members, key) {
            Some(v) => Some(v),
            None => if entry.0@ == key {
                Some(entry.1)
            } else {
                None
            },
        },
{
    assert(members.push(entry).drop_last() =~= members);
}

impl Status {
    /// The names a status crosses the wire under: its state, then whatever it carries.
    pub open spec fn wire_keys(self) -> Seq<Seq<char>> {
        seq!["state"@] + (if self.uptime is Some {
            seq!["uptime_ms"@]
        } else {
            Seq::empty()
        }) + match self.exit {
            Some(Exit::Code(_)) => seq!["exit_code"@],
            Some(Exit::Signal(_)) => seq!["signal"@],
            None => Seq::empty(),
        } + (if self.held is Some {
            seq!["held_by"@]
        } else {
            Seq::empty()
        }) + (if self.note is Some {
            seq!["note"@]
        } else {
            Seq::empty()
        })
    }

    /// A status read off the wire: a state it names is required, everything else is taken when it
    /// is there and of the right kind.
    pub open spec fn read_spec(value: Json) -> Result<Status, Seq<char>> {
        match get_spec(value, "state"@) {
            Some(Json::Str(label)) => match State::read_spec(label@) {
                None => Err("unit status: no state `"@ + label@ + "`"@),
                Some(state) => Ok(
                    Status {
                        state,
                        uptime: u64_spec(get_spec(value, "uptime_ms"@)),
                        exit: match get_spec(value, "exit_code"@) {
                            Some(code) => match i64_spec(Some(code)) {
                                Some(c) => Some(Exit::Code(c as i32)),
                                None => None,
                            },
                            None => match i64_spec(get_spec(value, "signal"@)) {
                                Some(c) => Some(Exit::Signal(c as i32)),
                                None => None,
                            },
                        },
                        held: match get_spec(value, "held_by"@) {
                            Some(h) => match (get_spec(h, "project"@), u64_spec(get_spec(h, "pid"@))) {
                                (Some(Json::Str(p)), Some(pid)) => Some(Claim { project: p, pid: pid as u32 }),
                                _ => None,
                            },
                            None => None,
                        },
                        note: match get_spec(value, "note"@) {
                            Some(Json::Str(n)) => Some(n),
                            _ => None,
                        },
                    },
                ),
            },
            _ => Err("unit status: no state"@),
        }
    }

    /// A status as the daemon's reply carries it.
    pub fn read(value: &Json) -> (r: Result<Status, String>)
        ensures
            match (r, Status::read_spec(*value)) {
                (Ok(s), Ok(t)) => s == t,
                (Err(e), Err(w)) => e@ == w,
                _ => false,
            },
    {
        let label = match get(value, "state") {
            Some(Json::Str(label)) => label,
            _ => {
                return Err(String::from_str("unit status: no state"));
            },
        };
        let state = match State::read(label.as_str()) {
            None => {
                let mut e = String::from_str("unit status: no state `");
                e.append(label.as_str());
                e.append("`");
                return Err(e);
            },
            Some(state) => state,
        };
        let exit = match get(value, "exit_code") {
            Some(code) => match as_i64(Some(code)) {
                Some(c) => Some(Exit::Code(c as i32)),
                None => None,
            },
            None => match as_i64(get(value, "signal")) {
                Some(c) => Some(Exit::Signal(c as i32)),
                None => None,
            },
        };
        let held = match get(value, "held_by") {
            Some(h) => match (get(h, "project"), as_u64(get(h, "pid"))) {
                (Some(Json::Str(p)), Some(pid)) => Some(Claim { project: p.clone(), pid: pid as u32 }),
                _ => None,
            },
            None => None,
        };
        let note = match get(value, "note") {
            Some(Json::Str(n)) => Some(n.clone()),
            _ => None,
        };
        Ok(Status { state, uptime: as_u64(get(value, "uptime_ms")), exit, held, note })
    }

    /// The status as it crosses the wire. Read back, it is the same status: nothing it carries is
    /// lost or changed on the way.
    pub fn to_value(&self) -> (r: Json)
        ensures
            keys_of(r) == self.wire_keys(),
            str_spec(get_spec(r, "state"@)) == Some(self.state.label_spec()),
            get_spec(r, "uptime_ms"@) == match self.uptime {
                Some(u) => Some(Json::Num(Num::Pos(u))),
                None => None::<Json>,
            },
            get_spec(r, "exit_code"@) == match self.exit {
                Some(Exit::Code(c)) => Some(Json::Num(num_of(c as int))),
                _ => None::<Json>,
            },
            get_spec(r, "signal"@) == match self.exit {
                Some(Exit::Signal(c)) => Some(Json::Num(num_of(c as int))),
                _ => None::<Json>,
            },
            match self.held {
                Some(claim) => match get_spec(r, "held_by"@) {
                    Some(h) => keys_of(h) == seq!["project"@, "pid"@] && str_spec(get_spec(h, "project"@))
                        == Some(claim.project@) && get_spec(h, "pid"@) == Some(Json::Num(Num::Pos(claim.pid as u64))),
                    None => false,
                },
                None => get_spec(r, "held_by"@) is None,
            },
            str_spec(get_spec(r, "note"@)) == crate::text::opt_view(self.note),
            self.note is None ==> get_spec(r, "note"@) is None,
            Status::read_spec(r) == Ok::<Status, Seq<char>>(*self),
            r is Object,
            forall|k: Seq<char>| !self.wire_keys().contains(k) ==> #[trigger] get_spec(r, k) is None,
    {
        proof {
            reveal_strlit("state");
            reveal_strlit("uptime_ms");
            reveal_strlit("exit_code");
            reveal_strlit("signal");
            reveal_strlit("held_by");
            reveal_strlit("note");
            reveal_strlit("project");
            reveal_strlit("pid");
            assert("state"@.len() == 5 && "uptime_ms"@.len() == 9 && "exit_code"@.len() == 9);
            assert("signal"@.len() == 6 && "held_by"@.len() == 7 && "note"@.len() == 4);
            assert("project"@.len() == 7 && "pid"@.len() == 3);
            assert("uptime_ms"@[0] != "exit_code"@[0]);
        }
        let mut members: Vec<(String, Json)> = Vec::new();
        let label = String::from_str(self.state.label());
        let first = (String::from_str("state"), Json::Str(label));
        members.push(first);
        proof {
            lemma_member_push(Seq::empty(), first);
            assert(members@ =~= seq![first]);
        }
        let ghost keys = seq!["state"@];
        assert(members@.map_values(|m: (String, Json)| m.0@) =~= keys);
        assert(members@.drop_last() =~= Seq::<(String, Json)>::empty());
        assert(crate::json::member(members@, "uptime_ms"@) is None);
        assert(crate::json::member(members@, "exit_code"@) is None);
        assert(crate::json::member(members@, "signal"@) is None);
        assert(crate::json::member(members@, "held_by"@) is None);
        assert(crate::json::member(members@, "note"@) is None);
        match self.uptime {
            Some(u) => {
                let ghost before = members@;
                let entry = (String::from_str("uptime_ms"), Json::Num(Num::Pos(u)));
                members.push(entry);
                proof {
                    lemma_member_push(before, entry);
                    assert(crate::json::member(members@, "uptime_ms"@) == Some(entry.1));
                    assert(crate::json::member(members@, "exit_code"@) is None);
                    assert(crate::json::member(members@, "signal"@) is None);
                }
            },
            None => {},
        }
        let ghost after_uptime = members@;
        let ghost want_uptime = match self.uptime {
            Some(u) => Some(Json::Num(Num::Pos(u))),
            None => None::<Json>,
        };
        assert(crate::json::member(after_uptime, "uptime_ms"@) == want_uptime);
        assert(crate::json::member(after_uptime, "exit_code"@) is None);
        assert(crate::json::member(after_uptime, "signal"@) is None);
        match self.exit {
            Some(Exit::Code(c)) => {
                let ghost before = members@;
                let entry = (String::from_str("exit_code"), Json::Num(num(c as i64)));
                members.push(entry);
                proof {
                    lemma_member_push(before, entry);
                    lemma_member_push(before, entry);
                }
            },
            Some(Exit::Signal(c)) => {
                let ghost before = members@;
                let entry = (String::from_str("signal"), Json::Num(num(c as i64)));
                members.push(entry);
                proof {
                    lemma_member_push(before, entry);
                    lemma_member_push(before, entry);
                }
            },
            None => {},
        }
        let ghost after_exit = members@;
        let ghost want_code = match self.exit {
            Some(Exit::Code(c)) => Some(Json::Num(num_of(c as int))),
            _ => None::<Json>,
        };
        let ghost want_signal = match self.exit {
            Some(Exit::Signal(c)) => Some(Json::Num(num_of(c as int))),
            _ => None::<Json>,
        };
        assert(crate::json::member(after_exit, "uptime_ms"@) == want_uptime);
        assert(crate::json::member(after_exit, "exit_code"@) == want_code);
        assert(crate::json::member(after_exit, "signal"@) == want_signal);
        match &self.held {
            Some(claim) => {
                let ghost before = members@;
                let mut inner: Vec<(String, Json)> = Vec::new();
                let p = (String::from_str("project"), Json::Str(claim.project.clone()));
                inner.push(p);
                let q = (String::from_str("pid"), Json::Num(Num::Pos(claim.pid as u64)));
                let ghost one = inner@;
                inner.push(q);
                proof {
                    lemma_member_push(Seq::empty(), p);
                    lemma_member_push(Seq::empty(), p);
                    assert(one =~= seq![p]);
                    lemma_member_push(one, q);
                    lemma_member_push(one, q);
                    assert(inner@.map_values(|m: (String, Json)| m.0@) =~= seq!["project"@, "pid"@]);
                }
                let entry = (String::from_str("held_by"), Json::Object(inner));
                members.push(entry);
                proof {
                    lemma_member_push(before, entry);
                    lemma_member_push(before, entry);
                    lemma_member_push(before, entry);
                    lemma_member_push(before, entry);
                }
            },
            None => {},
        }
        let ghost after_held = members@;
        assert(crate::json::member(after_held, "uptime_ms"@) == want_uptime);
        assert(crate::json::member(after_held, "exit_code"@) == want_code);
        assert(crate::json::member(after_held, "signal"@) == want_signal);
        match &self.note {
            Some(n) => {
                let ghost before = members@;
                let entry = (String::from_str("note"), Json::Str(n.clone()));
                members.push(entry);
                proof {
                    lemma_member_push(before, entry);
                    lemma_member_push(before, entry);
                    lemma_member_push(before, entry);
                    lemma_member_push(before, entry);
                    lemma_member_push(before, entry);
                }
            },
            None => {},
        }
        proof {
            let all = members@;
            assert(crate::json::member(all, "uptime_ms"@) == want_uptime);
            assert(crate::json::member(all, "exit_code"@) == want_code);
            assert(crate::json::member(all, "signal"@) == want_signal);
            assert(all.map_values(|m: (String, Json)| m.0@) =~= self.wire_keys());
            assert forall|k: Seq<char>| !self.wire_keys().contains(k) implies #[trigger] crate::json::member(all, k) is None by {
                assert forall|j: int| 0 <= j < all.len() implies all[j].0@ != k by {
                    assert(self.wire_keys()[j] == all[j].0@);
                }
                crate::json::lemma_member(all, k, all.len() as int);
            }
        }
        Json::Object(members)
    }
}

} // verus!

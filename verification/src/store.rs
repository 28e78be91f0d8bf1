//! State and log storage: one directory per project, one record and one log per unit, and the
//! display cache a docker unit's row is painted from when docker cannot be asked.
//!
//! A record is a cache of what the daemon knew when it last wrote one. Whether a unit is *running*
//! is never read from here, only from the daemon's `wait()`.

use sha2::{Digest, Sha256};
use vstd::prelude::*;
use vstd::string::*;

use crate::herdr::{trail_at, trim_trail};
use crate::paths::{file_name, file_name_spec, join, join_spec, last_segment};
use crate::text::{opt_view, push_char, views};
use crate::tree::{lookup, lookup_spec, toml_document, toml_document_spec, Toml};
use crate::unit::{Exit, State};

verus! {

/// The SHA-256 digest of the UTF-8 bytes of `text`.
pub uninterp spec fn sha256_utf8(text: Seq<char>) -> Seq<u8>;

/// `sha2::Sha256::digest` of the UTF-8 bytes of `text`. Believed, not proved: the result is the
/// digest of exactly those bytes, thirty-two bytes long.
#[verifier::external_body]
fn sha256_of(text: &str) -> (r: Vec<u8>)
    ensures
        r@ == sha256_utf8(text@),
        r@.len() == 32,
{
    Sha256::digest(text.as_bytes()).to_vec()
}

/// A hex digit, lower case.
pub open spec fn hex_digit(v: nat) -> char {
    if v < 10 {
        (('0' as u32) + v) as char
    } else {
        (('a' as u32) + v - 10) as char
    }
}

/// Each byte as two lower-case hex digits.
pub open spec fn hex_spec(bytes: Seq<u8>) -> Seq<char>
    decreases bytes.len(),
{
    if bytes.len() == 0 {
        Seq::empty()
    } else {
        hex_spec(bytes.drop_last()) + seq![
            hex_digit((bytes.last() / 16) as nat),
            hex_digit((bytes.last() % 16) as nat),
        ]
    }
}

fn hex_char(v: u8) -> (c: char)
    requires
        v < 16,
    ensures
        c == hex_digit(v as nat),
{
    if v < 10 {
        ((48 + v) as u8) as char
    } else {
        ((87 + v) as u8) as char
    }
}

pub fn hex(bytes: &[u8]) -> (r: String)
    ensures
        r@ == hex_spec(bytes@),
{
    let mut r = String::new();
    let mut i: usize = 0;
    while i < bytes.len()
        invariant
            i <= bytes@.len(),
            r@ == hex_spec(bytes@.subrange(0, i as int)),
        decreases bytes.len() - i,
    {
        let b = bytes[i];
        assert(bytes@.subrange(0, i as int + 1).drop_last() =~= bytes@.subrange(0, i as int));
        push_char(&mut r, hex_char(b / 16));
        push_char(&mut r, hex_char(b % 16));
        i += 1;
    }
    assert(bytes@.subrange(0, bytes@.len() as int) =~= bytes@);
    r
}

/// The readable half of a project key: the directory's own name, its last component once the
/// separators and `.` pieces at its end are set aside, or `project` for a path that names none
/// (the root, `.`, or one ending in `..`).
pub open spec fn key_name(path: Seq<char>) -> Seq<char> {
    let n = file_name_spec(trim_trail(path));
    if n.len() == 0 || n == seq!['.'] || n == seq!['.', '.'] {
        "project"@
    } else {
        n
    }
}

/// `<basename>-<first 8 hex of sha256(path)>`: readable, and two checkouts of one repo never
/// collide.
pub open spec fn project_key_spec(path: Seq<char>) -> Seq<char> {
    key_name(path) + seq!['-'] + hex_spec(sha256_utf8(path)).take(8)
}

pub fn project_key(path: &str) -> (r: String)
    ensures
        r@ == project_key_spec(path@),
        r@.len() == key_name(path@).len() + 9,
        sha256_utf8(path@).len() == 32,
{
    let digest = sha256_of(path);
    let end = trail_at(path, 0, path.unicode_len());
    assert(path@.subrange(0, path@.len() as int) =~= path@);
    let trimmed = path.substring_char(0, end);
    let name = file_name(trimmed);
    let n = name.unicode_len();
    let dots = (n == 1 && name.get_char(0) == '.') || (n == 2 && name.get_char(0) == '.' && name.get_char(1) == '.');
    let mut r = if n == 0 || dots {
        proof {
            reveal_strlit("project");
            if n == 1 {
                assert(name@ =~= seq!['.']);
            }
            if n == 2 {
                assert(name@ =~= seq!['.', '.']);
            }
        }
        String::from_str("project")
    } else {
        proof {
            if n == 1 {
                assert(name@ != seq!['.']);
            }
            if n == 2 {
                assert(name@ != seq!['.', '.']);
            }
        }
        name
    };
    push_char(&mut r, '-');
    let first = hex(&digest.as_slice()[0..4]);
    proof {
        let d = sha256_utf8(path@);
        assert(digest@.subrange(0, 4) =~= d.take(4));
        lemma_hex_prefix(d, 4);
        assert(first@ == hex_spec(d).take(8));
        lemma_hex_prefix(d.take(4), 4);
        assert(d.take(4).take(4) =~= d.take(4));
    }
    let ghost head = r@;
    r.append(first.as_str());
    assert(r@ =~= head + first@);
    r
}

/// The hex of the first bytes is the start of the hex of them all.
proof fn lemma_hex_prefix(bytes: Seq<u8>, k: nat)
    requires
        k <= bytes.len(),
    ensures
        hex_spec(bytes.take(k as int)) == hex_spec(bytes).take(2 * k as int),
        hex_spec(bytes).len() == 2 * bytes.len(),
    decreases bytes.len(),
{
    if bytes.len() > 0 {
        lemma_hex_prefix(bytes.drop_last(), if k == bytes.len() {
            0
        } else {
            k
        });
        if k == bytes.len() {
            assert(bytes.take(k as int) =~= bytes);
            assert(hex_spec(bytes).take(2 * k as int) =~= hex_spec(bytes));
        } else {
            assert(bytes.drop_last().take(k as int) =~= bytes.take(k as int));
            assert(hex_spec(bytes).take(2 * k as int) =~= hex_spec(bytes.drop_last()).take(
                2 * k as int,
            ));
        }
    } else {
        assert(bytes.take(k as int) =~= bytes);
    }
}

/// No separator in what follows a path's last separator.
proof fn lemma_segment_has_no_separator(path: Seq<char>)
    ensures
        forall|i: int| 0 <= i < last_segment(path).len() ==> last_segment(path)[i] != '/',
    decreases path.len(),
{
    if path.len() > 0 && path.last() != '/' {
        lemma_segment_has_no_separator(path.drop_last());
        let before = last_segment(path.drop_last());
        assert(last_segment(path) == before.push(path.last()));
        assert forall|i: int| 0 <= i < last_segment(path).len() implies last_segment(path)[i] != '/' by {
            if i < before.len() {
                assert(last_segment(path)[i] == before[i]);
            }
        }
    }
}

/// No separator in a path's last component.
proof fn lemma_name_has_no_separator(path: Seq<char>)
    ensures
        forall|i: int| 0 <= i < file_name_spec(path).len() ==> file_name_spec(path)[i] != '/',
    decreases path.len(),
{
    if path.len() > 0 && path.last() == '/' {
        lemma_name_has_no_separator(path.drop_last());
        assert(file_name_spec(path) == file_name_spec(path.drop_last()));
    } else {
        lemma_segment_has_no_separator(path);
        assert(file_name_spec(path) == last_segment(path));
    }
}

proof fn lemma_hex_digit_not_separator(v: nat)
    requires
        v < 16,
    ensures
        hex_digit(v) != '/',
{
    if v < 10 {
        assert((('0' as u32) + v) as char as u32 == 48 + v);
    } else {
        assert((('a' as u32) + v - 10) as char as u32 == 97 + v - 10);
    }
}

/// Hex digits are never a separator.
proof fn lemma_hex_has_no_separator(bytes: Seq<u8>)
    ensures
        forall|i: int| 0 <= i < hex_spec(bytes).len() ==> hex_spec(bytes)[i] != '/',
    decreases bytes.len(),
{
    if bytes.len() > 0 {
        lemma_hex_has_no_separator(bytes.drop_last());
        let hi = (bytes.last() / 16) as nat;
        let lo = (bytes.last() % 16) as nat;
        lemma_hex_digit_not_separator(hi);
        lemma_hex_digit_not_separator(lo);
        let before = hex_spec(bytes.drop_last());
        let pair = seq![hex_digit(hi), hex_digit(lo)];
        assert(hex_spec(bytes) == before + pair);
        assert forall|i: int| 0 <= i < hex_spec(bytes).len() implies hex_spec(bytes)[i] != '/' by {
            if i < before.len() {
                assert(hex_spec(bytes)[i] == before[i]);
            } else {
                assert(hex_spec(bytes)[i] == pair[i - before.len()]);
            }
        }
    }
}

/// A name with no separator, after nothing or after a separator, is the last segment.
proof fn lemma_segment_after(prefix: Seq<char>, name: Seq<char>)
    requires
        prefix.len() == 0 || prefix.last() == '/',
        forall|i: int| 0 <= i < name.len() ==> name[i] != '/',
    ensures
        last_segment(prefix + name) == name,
    decreases name.len(),
{
    if name.len() == 0 {
        assert(prefix + name =~= prefix);
    } else {
        assert((prefix + name).drop_last() =~= prefix + name.drop_last());
        assert((prefix + name).last() == name.last());
        lemma_segment_after(prefix, name.drop_last());
        assert(name.drop_last().push(name.last()) =~= name);
    }
}

/// A project's slot directory ends in the project's key.
proof fn lemma_slot_named_by_key(root: Seq<char>, path: Seq<char>)
    requires
        sha256_utf8(path).len() == 32,
    ensures
        file_name_spec(slot_dir(root, project_key_spec(path))) == project_key_spec(path),
{
    let key = project_key_spec(path);
    let name = key_name(path);
    let h = hex_spec(sha256_utf8(path));
    reveal_strlit("project");
    assert("project"@ =~= seq!['p', 'r', 'o', 'j', 'e', 'c', 't']);
    lemma_hex_prefix(sha256_utf8(path), 0);
    assert(h.len() == 64);
    assert(h.take(8).len() == 8);
    lemma_name_has_no_separator(trim_trail(path));
    lemma_hex_has_no_separator(sha256_utf8(path));
    assert forall|i: int| 0 <= i < key.len() implies key[i] != '/' by {
        if i < name.len() {
            assert(key[i] == name[i]);
        } else if i == name.len() {
            assert(key[i] == '-');
        } else {
            assert(key[i] == h.take(8)[i - name.len() - 1]);
            assert(h.take(8)[i - name.len() - 1] == h[i - name.len() - 1]);
        }
    }
    assert(key.len() > 0);
    let base = join_spec(root, "projects"@);
    let dir = slot_dir(root, key);
    if base.len() == 0 {
        assert(dir == key);
        assert(Seq::<char>::empty() + key =~= key);
        lemma_segment_after(Seq::empty(), key);
    } else if base.last() == '/' {
        lemma_segment_after(base, key);
    } else {
        assert(dir == (base + seq!['/']) + key);
        lemma_segment_after(base + seq!['/'], key);
    }
    assert(dir.last() == key.last());
    assert(key[key.len() - 1] != '/');
}

/// A project as its own record spells it: the path is what the cleanup rule checks.
#[derive(Debug, Clone, PartialEq, Eq)]
pub struct Identity {
    pub path: String,
    pub name: String,
}

impl Identity {
    pub fn key(&self) -> (r: String)
        ensures
            r@ == project_key_spec(self.path@),
            r@.len() == key_name(self.path@).len() + 9,
            sha256_utf8(self.path@).len() == 32,
    {
        project_key(self.path.as_str())
    }
}

#[derive(Debug, Clone)]
pub struct Store {
    root: String,
}

/// Where a project's slot lives under a store's root.
pub open spec fn slot_dir(root: Seq<char>, key: Seq<char>) -> Seq<char> {
    join_spec(join_spec(root, "projects"@), key)
}

impl Store {
    pub closed spec fn root_spec(&self) -> Seq<char> {
        self.root@
    }

    pub fn at(root: String) -> (r: Store)
        ensures
            r.root_spec() == root@,
    {
        Store { root }
    }

    pub fn root(&self) -> (r: &str)
        ensures
            r@ == self.root_spec(),
    {
        self.root.as_str()
    }

    /// Path arithmetic only: a slot for a project the store may never have seen. Its directory's
    /// last component is the project's key.
    pub fn slot(&self, identity: &Identity) -> (r: Slot)
        ensures
            r.dir_spec() == slot_dir(self.root_spec(), project_key_spec(identity.path@)),
            file_name_spec(r.dir_spec()) == project_key_spec(identity.path@),
    {
        let key = identity.key();
        proof {
            lemma_slot_named_by_key(self.root_spec(), identity.path@);
        }
        self.slot_at(key.as_str())
    }

    /// The slot a project key names, whether or not it exists yet.
    pub fn slot_at(&self, key: &str) -> (r: Slot)
        ensures
            r.dir_spec() == slot_dir(self.root_spec(), key@),
    {
        let projects = join(self.root.as_str(), "projects");
        Slot { dir: join(projects.as_str(), key) }
    }
}

/// One project's corner of the store.
#[derive(Debug, Clone, PartialEq, Eq)]
pub struct Slot {
    dir: String,
}

/// A unit's file name: its key, then `suffix`.
pub open spec fn unit_file(dir: Seq<char>, sub: Seq<char>, unit: Seq<char>, suffix: Seq<char>) -> Seq<char> {
    join_spec(join_spec(dir, sub), unit + suffix)
}

impl Slot {
    pub closed spec fn dir_spec(&self) -> Seq<char> {
        self.dir@
    }

    pub fn dir(&self) -> (r: &str)
        ensures
            r@ == self.dir_spec(),
    {
        self.dir.as_str()
    }

    /// The project key this slot is for: the last component of its directory.
    pub fn key(&self) -> (r: String)
        ensures
            r@ == file_name_spec(self.dir_spec()),
    {
        file_name(self.dir.as_str())
    }

    fn file(&self, sub: &str, unit: &str, suffix: &str) -> (r: String)
        ensures
            r@ == unit_file(self.dir_spec(), sub@, unit@, suffix@),
    {
        let folder = join(self.dir.as_str(), sub);
        let mut name = String::from_str(unit);
        name.append(suffix);
        join(folder.as_str(), name.as_str())
    }

    pub fn record_path(&self, unit: &str) -> (r: String)
        ensures
            r@ == unit_file(self.dir_spec(), "units"@, unit@, ".toml"@),
    {
        self.file("units", unit, ".toml")
    }

    pub fn log_path(&self, unit: &str) -> (r: String)
        ensures
            r@ == unit_file(self.dir_spec(), "logs"@, unit@, ".log"@),
    {
        self.file("logs", unit, ".log")
    }

    /// The one previous generation a spawn keeps of a unit's log.
    pub fn previous_log_path(&self, unit: &str) -> (r: String)
        ensures
            r@ == unit_file(self.dir_spec(), "logs"@, unit@, ".log.1"@),
    {
        self.file("logs", unit, ".log.1")
    }
}

/// What the daemon knew about a local unit when it last wrote. Times are milliseconds since the
/// epoch.
#[derive(Debug, Clone, PartialEq, Eq)]
pub struct Record {
    pub state: State,
    pub pid: Option<u32>,
    pub started_at: Option<u64>,
    /// `ps -o lstart=` as it read at spawn. Its one role is telling a leftover from a reused pid.
    pub ps_start: Option<String>,
    pub cmd: Vec<String>,
    pub cwd: String,
    pub exit: Option<Exit>,
}

impl Record {
    /// The record of a unit just spawned: up, under `pid`, since `started_at` (milliseconds since
    /// the epoch), with what `ps` read of its start, and the command it runs where it runs it.
    pub fn running(pid: u32, started_at: u64, ps_start: Option<String>, cmd: Vec<String>, cwd: String) -> (r: Record)
        ensures
            r.state == State::Up,
            r.pid == Some(pid),
            r.started_at == Some(started_at),
            r.ps_start == ps_start,
            r.cmd == cmd,
            r.cwd == cwd,
            r.exit is None,
    {
        Record { state: State::Up, pid: Some(pid), started_at: Some(started_at), ps_start, cmd, cwd, exit: None }
    }

    /// A unit that is not running and never said how it ended.
    pub fn stopped() -> (r: Record)
        ensures
            r.state == State::Down,
            r.pid is None,
            r.started_at is None,
            r.ps_start is None,
            r.cmd@.len() == 0,
            r.cwd@ == Seq::<char>::empty(),
            r.exit is None,
    {
        Record {
            state: State::Down,
            pid: None,
            started_at: None,
            ps_start: None,
            cmd: Vec::new(),
            cwd: String::new(),
            exit: None,
        }
    }

    /// How long the unit has been up at `now`; nothing when it never started or the clock reads
    /// earlier than its start.
    pub fn uptime(&self, now: u64) -> (r: Option<u64>)
        ensures
            r == match self.started_at {
                Some(s) if now >= s => Some((now - s) as u64),
                _ => None,
            },
    {
        match self.started_at {
            Some(s) => if now >= s {
                Some(now - s)
            } else {
                None
            },
            None => None,
        }
    }
}

/// The string under `key`, if a string is what is there.
pub open spec fn str_at(doc: Seq<(String, Toml)>, key: Seq<char>) -> Option<Seq<char>> {
    match lookup_spec(doc, key) {
        Some(Toml::Str(s)) => Some(s@),
        _ => None,
    }
}

/// The integer under `key`, if an integer is what is there.
pub open spec fn int_at(doc: Seq<(String, Toml)>, key: Seq<char>) -> Option<i64> {
    match lookup_spec(doc, key) {
        Some(Toml::Int(n)) => Some(n),
        _ => None,
    }
}

/// The milliseconds a float under `key` counts as seconds, if a float that is a duration is there.
pub open spec fn millis_at(doc: Seq<(String, Toml)>, key: Seq<char>) -> Option<u64> {
    match lookup_spec(doc, key) {
        Some(Toml::Float(t)) => crate::tree::millis_of_spec(t@),
        _ => None,
    }
}

/// The strings of the array under `key`, the elements that are not strings passed over; nothing
/// at all when there is no array.
pub open spec fn strings_at(doc: Seq<(String, Toml)>, key: Seq<char>) -> Seq<Seq<char>> {
    match lookup_spec(doc, key) {
        Some(Toml::Array(items)) => items@.filter(|t: Toml| t is Str).map_values(|t: Toml| crate::manifest::str_of(t)),
        _ => Seq::empty(),
    }
}

fn str_field(doc: &Vec<(String, Toml)>, key: &str) -> (r: Option<String>)
    ensures
        opt_view(r) == str_at(doc@, key@),
{
    match lookup(doc, key) {
        Some(Toml::Str(s)) => Some(s.clone()),
        _ => None,
    }
}

fn int_field(doc: &Vec<(String, Toml)>, key: &str) -> (r: Option<i64>)
    ensures
        r == int_at(doc@, key@),
{
    match lookup(doc, key) {
        Some(Toml::Int(n)) => Some(*n),
        _ => None,
    }
}

fn millis_field(doc: &Vec<(String, Toml)>, key: &str) -> (r: Option<u64>)
    ensures
        r == millis_at(doc@, key@),
{
    match lookup(doc, key) {
        Some(Toml::Float(t)) => crate::tree::millis_of(t.as_str()),
        _ => None,
    }
}

fn strings_field(doc: &Vec<(String, Toml)>, key: &str) -> (r: Vec<String>)
    ensures
        views(r@) == strings_at(doc@, key@),
{
    let mut r: Vec<String> = Vec::new();
    match lookup(doc, key) {
        Some(Toml::Array(items)) => {
            let ghost keep = |t: Toml| t is Str;
            let ghost see = |t: Toml| crate::manifest::str_of(t);
            let mut i: usize = 0;
            while i < items.len()
                invariant
                    i <= items@.len(),
                    keep == (|t: Toml| t is Str),
                    see == (|t: Toml| crate::manifest::str_of(t)),
                    views(r@) == items@.subrange(0, i as int).filter(keep).map_values(see),
                decreases items.len() - i,
            {
                proof {
                    items@.subrange(0, i as int).lemma_filter_push(items@[i as int], keep);
                }
                assert(items@.subrange(0, i as int + 1) =~= items@.subrange(0, i as int).push(items@[i as int]));
                match &items[i] {
                    Toml::Str(word) => {
                        let ghost before = r@;
                        let w = word.clone();
                        r.push(w);
                        assert(views(r@) =~= views(before).push(w@));
                        assert(items@.subrange(0, i as int + 1).filter(keep) =~= items@.subrange(0, i as int).filter(keep).push(items@[i as int]));
                        assert(items@.subrange(0, i as int + 1).filter(keep).map_values(see) =~= items@.subrange(0, i as int).filter(keep).map_values(see).push(w@));
                    },
                    _ => {
                        assert(items@.subrange(0, i as int + 1).filter(keep) =~= items@.subrange(0, i as int).filter(keep));
                    },
                }
                i += 1;
            }
            assert(items@.subrange(0, items@.len() as int) =~= items@);
        },
        _ => {},
    }
    r
}

impl Identity {
    /// A slot's identity file as it reads once parsed: the path it names, and the name, empty when
    /// it says none; nothing at all without a path.
    pub fn of_document(doc: &Vec<(String, Toml)>) -> (r: Option<Identity>)
        ensures
            identity_read(doc@, r),
    {
        let path = match str_field(doc, "path") {
            Some(p) => p,
            None => return None,
        };
        let name = match str_field(doc, "name") {
            Some(n) => n,
            None => String::new(),
        };
        Some(Identity { path, name })
    }

    /// A slot's identity file read from its text; nothing when the text is not TOML.
    pub fn read(text: &str) -> (r: Option<Identity>)
        ensures
            match toml_document_spec(text@) {
                Err(_) => r is None,
                Ok(doc) => identity_read(doc, r),
            },
    {
        match toml_document(text) {
            Ok(doc) => Identity::of_document(&doc),
            Err(_) => None,
        }
    }
}

/// What an identity document reads as: the path it names, and the name, empty when it says none;
/// nothing at all without a path.
pub open spec fn identity_read(doc: Seq<(String, Toml)>, r: Option<Identity>) -> bool {
    match str_at(doc, "path"@) {
        None => r is None,
        Some(path) => r matches Some(i) && i.path@ == path && i.name@ == (match str_at(doc, "name"@) {
            Some(n) => n,
            None => Seq::empty(),
        }),
    }
}

impl Record {
    /// A record as its file reads once parsed: a state whose label is not one reads as unknown, an
    /// exit code wins over a signal, and anything missing or of another kind reads as nothing.
    pub fn of_document(doc: &Vec<(String, Toml)>) -> (r: Record)
        ensures
            record_read(doc@, r),
    {
        let exit = match lookup(doc, "exit_code") {
            Some(code) => match code {
                Toml::Int(c) => Some(Exit::Code(*c as i32)),
                _ => None,
            },
            None => match int_field(doc, "signal") {
                Some(sig) => Some(Exit::Signal(sig as i32)),
                None => None,
            },
        };
        let state = match str_field(doc, "state") {
            Some(label) => match State::read(label.as_str()) {
                Some(s) => s,
                None => State::Unknown,
            },
            None => State::Unknown,
        };
        let pid = match int_field(doc, "pid") {
            Some(p) => Some(p as u32),
            None => None,
        };
        let cwd = match str_field(doc, "cwd") {
            Some(c) => c,
            None => String::new(),
        };
        Record {
            state,
            pid,
            started_at: millis_field(doc, "started_at"),
            ps_start: str_field(doc, "ps_start"),
            cmd: strings_field(doc, "cmd"),
            cwd,
            exit,
        }
    }

    /// A record read from its file's text; nothing when the text is not TOML.
    pub fn read(text: &str) -> (r: Option<Record>)
        ensures
            match toml_document_spec(text@) {
                Err(_) => r is None,
                Ok(doc) => r matches Some(x) && record_read(doc, x),
            },
    {
        match toml_document(text) {
            Ok(doc) => Some(Record::of_document(&doc)),
            Err(_) => None,
        }
    }
}

/// What a record document reads as: a state whose label is not one reads as unknown, an exit code
/// wins over a signal, and anything missing or of another kind reads as nothing.
pub open spec fn record_read(doc: Seq<(String, Toml)>, r: Record) -> bool {
    &&& r.state == match str_at(doc, "state"@) {
            Some(label) => match State::read_spec(label) {
                Some(s) => s,
                None => State::Unknown,
            },
            None => State::Unknown,
        }
    &&& r.pid == match int_at(doc, "pid"@) {
            Some(p) => Some(p as u32),
            None => None::<u32>,
        }
    &&& r.started_at == millis_at(doc, "started_at"@)
    &&& opt_view(r.ps_start) == str_at(doc, "ps_start"@)
    &&& views(r.cmd@) == strings_at(doc, "cmd"@)
    &&& r.cwd@ == match str_at(doc, "cwd"@) {
            Some(c) => c,
            None => Seq::empty(),
        }
    &&& r.exit == match lookup_spec(doc, "exit_code"@) {
            Some(code) => match code {
                Toml::Int(c) => Some(Exit::Code(c as i32)),
                _ => None,
            },
            None => match int_at(doc, "signal"@) {
                Some(sig) => Some(Exit::Signal(sig as i32)),
                None => None,
            },
        }
}


/// The `compose ps` reading last seen for one docker unit. Times are in milliseconds since the
/// epoch; an uptime is in milliseconds.
#[derive(Debug, Clone, PartialEq, Eq)]
pub struct Cache {
    /// Docker's own `State` and `Health` words, kept verbatim so one mapping reads both a live
    /// observation and a remembered one.
    pub state: String,
    pub health: String,
    pub exit_code: i32,
    pub seen_at: u64,
    /// The uptime as it read at `seen_at`.
    pub uptime: Option<u64>,
}

impl Cache {
    /// A cache as its file reads once parsed; without the time it was seen there is no reading.
    pub fn of_document(doc: &Vec<(String, Toml)>) -> (r: Option<Cache>)
        ensures
            cache_read(doc@, r),
    {
        let seen_at = match millis_field(doc, "seen_at") {
            Some(ms) => ms,
            None => return None,
        };
        let state = match str_field(doc, "state") {
            Some(s) => s,
            None => String::new(),
        };
        let health = match str_field(doc, "health") {
            Some(s) => s,
            None => String::new(),
        };
        let exit_code: i32 = match int_field(doc, "exit_code") {
            Some(code) => code as i32,
            None => 0,
        };
        Some(Cache { state, health, exit_code, seen_at, uptime: millis_field(doc, "uptime") })
    }

    /// A cache read from its file's text; nothing when the text is not TOML.
    pub fn read(text: &str) -> (r: Option<Cache>)
        ensures
            match toml_document_spec(text@) {
                Err(_) => r is None,
                Ok(doc) => cache_read(doc, r),
            },
    {
        match toml_document(text) {
            Ok(doc) => Cache::of_document(&doc),
            Err(_) => None,
        }
    }

    /// How long ago the reading was taken, at `now`; nothing when the clock reads earlier.
    pub fn age(&self, now: u64) -> (r: u64)
        ensures
            r == if now >= self.seen_at {
                (now - self.seen_at) as u64
            } else {
                0
            },
    {
        if now >= self.seen_at {
            now - self.seen_at
        } else {
            0
        }
    }
}

/// What a cache document reads as: without the time it was seen there is no reading.
pub open spec fn cache_read(doc: Seq<(String, Toml)>, r: Option<Cache>) -> bool {
    match millis_at(doc, "seen_at"@) {
        None => r is None,
        Some(seen) => r matches Some(c) && c.seen_at == seen
            && c.state@ == (match str_at(doc, "state"@) {
                Some(s) => s,
                None => Seq::empty(),
            })
            && c.health@ == (match str_at(doc, "health"@) {
                Some(s) => s,
                None => Seq::empty(),
            })
            && c.exit_code == (match int_at(doc, "exit_code"@) {
                Some(code) => code as i32,
                None => 0i32,
            })
            && c.uptime == millis_at(doc, "uptime"@),
    }
}

} // verus!

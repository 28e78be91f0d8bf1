//! A project's `.herdr-dev.toml`, as the model the rest of the crate reads.
//!
//! Two tiers of complaint, because a typo must not lock you out of a project: anything attributable
//! to a single unit leaves the unit in the model marked broken, while a problem with the file as a
//! whole is a `LoadError`.

use vstd::prelude::*;
use vstd::string::*;

use crate::env::{copy_pairs, layered, layered_spec, pair_view, pairs_view};
use crate::paths::{join, join_spec, project_name, project_name_spec, root_of, root_spec};
use crate::readable::{trim_end, trim_exec, trim_start};
use crate::text::{opt_view, chars_of, decimal, decimal_string, pieces, push_char, sorted_set, sorted_words, split_chars, starts_with, str_eq, string_of, views};
use crate::tree::{as_table_like, entries_of, kind_name, kind_name_spec, lookup, lookup_spec, toml_document, toml_document_spec, Toml};

verus! {

#[derive(Debug, Clone, PartialEq, Eq)]
pub struct Project {
    pub root: String,
    pub manifest: String,
    pub name: String,
    pub env: Vec<(String, String)>,
    pub local: Vec<LocalUnit>,
    pub docker: Vec<DockerService>,
    pub includes: Vec<Include>,
    pub problems: Vec<String>,
}

#[derive(Debug, Clone, PartialEq, Eq)]
pub struct LocalUnit {
    pub name: String,
    pub cmd: Vec<String>,
    pub cwd: String,
    pub env: Vec<(String, String)>,
    pub problem: Option<String>,
}

#[derive(Debug, Clone, PartialEq, Eq)]
pub struct DockerService {
    pub name: String,
    pub one_shot: bool,
    pub note: Option<String>,
}

#[derive(Debug, Clone, PartialEq, Eq)]
pub struct Include {
    pub name: String,
    pub path: String,
}

/// Why a manifest could not be read at all: the file, its syntax, or its shape.
#[derive(Debug, Clone, PartialEq, Eq)]
pub enum LoadError {
    Read { path: String, source: String },
    Syntax { path: String, message: String },
    Schema { path: String, message: String },
}

impl LoadError {
    pub open spec fn path_spec(&self) -> Seq<char> {
        match self {
            LoadError::Read { path, .. } => path@,
            LoadError::Syntax { path, .. } => path@,
            LoadError::Schema { path, .. } => path@,
        }
    }

    pub open spec fn whole_spec(&self) -> Seq<char> {
        match self {
            LoadError::Read { source, .. } => source@,
            LoadError::Syntax { message, .. } => message@,
            LoadError::Schema { message, .. } => message@,
        }
    }

    pub fn path(&self) -> (r: &str)
        ensures
            r@ == self.path_spec(),
    {
        match self {
            LoadError::Read { path, .. } => path.as_str(),
            LoadError::Syntax { path, .. } => path.as_str(),
            LoadError::Schema { path, .. } => path.as_str(),
        }
    }

    /// One line, and nothing about where: the first line of the complaint, trimmed.
    pub open spec fn terse_spec(&self) -> Seq<char> {
        let lines = crate::text::lines_of(self.whole_spec());
        if lines.len() == 0 {
            Seq::empty()
        } else {
            trim_end(trim_start(lines[0]))
        }
    }

    pub fn terse(&self) -> (r: String)
        ensures
            r@ == self.terse_spec(),
    {
        let whole = match self {
            LoadError::Read { source, .. } => source.as_str(),
            LoadError::Syntax { message, .. } => message.as_str(),
            LoadError::Schema { message, .. } => message.as_str(),
        };
        let ls = crate::text::lines(whole);
        if ls.len() == 0 {
            return String::new();
        }
        let ghost lv = ls@.map_values(|l: Vec<char>| l@);
        assert(lv[0] == ls@[0]@);
        let (a, b) = trim_exec(&ls[0]);
        string_of(&ls[0].as_slice()[a..b])
    }

    /// The sentence the error is reported in: where, then what.
    pub fn message(&self) -> (r: String)
        ensures
            r@ == self.path_spec() + ": "@ + self.whole_spec(),
    {
        let (path, whole) = match self {
            LoadError::Read { path, source } => (path, source),
            LoadError::Syntax { path, message } => (path, message),
            LoadError::Schema { path, message } => (path, message),
        };
        let mut r = path.clone();
        r.append(": ");
        r.append(whole.as_str());
        r
    }
}

impl Project {
    /// A manifest that declares nothing at all.
    pub fn is_empty(&self) -> (r: bool)
        ensures
            r == (self.local@.len() == 0 && self.docker@.len() == 0 && self.includes@.len() == 0),
    {
        self.local.len() == 0 && self.docker.len() == 0 && self.includes.len() == 0
    }
}

impl LocalUnit {
    /// A unit the manifest could not make sense of: it stays in the model, marked.
    pub fn is_broken(&self) -> (r: bool)
        ensures
            r == self.problem is Some,
    {
        self.problem.is_some()
    }
}

/// The text of a string value; nothing for any other.
pub open spec fn str_of(item: Toml) -> Seq<char> {
    match item {
        Toml::Str(s) => s@,
        _ => Seq::empty(),
    }
}

pub open spec fn is_str(item: Toml) -> bool {
    item is Str
}

/// The first element that is not a string.
pub open spec fn first_non_string(items: Seq<Toml>) -> Option<int>
    decreases items.len(),
{
    if items.len() == 0 {
        None
    } else {
        match first_non_string(items.drop_last()) {
            Some(i) => Some(i),
            None => if !is_str(items.last()) {
                Some(items.len() - 1)
            } else {
                None
            },
        }
    }
}

proof fn lemma_first_non_string(items: Seq<Toml>, i: int)
    requires
        0 <= i <= items.len(),
        forall|j: int| 0 <= j < i ==> is_str(#[trigger] items[j]),
        i < items.len() ==> !is_str(items[i]),
    ensures
        first_non_string(items) == if i < items.len() {
            Some(i)
        } else {
            None::<int>
        },
    decreases items.len(),
{
    if items.len() > 0 {
        if i < items.len() - 1 {
            lemma_first_non_string(items.drop_last(), i);
        } else {
            lemma_first_non_string(items.drop_last(), items.len() - 1);
        }
    }
}

/// A value read as an array of strings, or the complaint about it (to follow the name of what was
/// read).
pub open spec fn string_array_spec(item: Toml) -> Result<Seq<Seq<char>>, Seq<char>> {
    match item {
        Toml::Array(items) => match first_non_string(items@) {
            None => Ok(items@.map_values(|t: Toml| str_of(t))),
            Some(i) => Err(
                "must be an array of strings, but element "@ + decimal(i as nat) + " is "@
                    + kind_name_spec(items@[i]),
            ),
        },
        _ => Err("must be an array of strings, found "@ + kind_name_spec(item)),
    }
}

pub open spec fn strings_result(r: Result<Vec<String>, String>) -> Result<Seq<Seq<char>>, Seq<char>> {
    match r {
        Ok(v) => Ok(views(v@)),
        Err(e) => Err(e@),
    }
}

pub fn string_array(item: &Toml) -> (r: Result<Vec<String>, String>)
    ensures
        strings_result(r) == string_array_spec(*item),
{
    let items = match item {
        Toml::Array(items) => items,
        _ => {
            let mut e = String::from_str("must be an array of strings, found ");
            let k = kind_name(item);
            e.append(k.as_str());
            return Err(e);
        },
    };
    let mut strings: Vec<String> = Vec::new();
    let mut i: usize = 0;
    while i < items.len()
        invariant
            i <= items@.len(),
            *item == Toml::Array(*items),
            forall|j: int| 0 <= j < i ==> is_str(#[trigger] items@[j]),
            views(strings@) == items@.subrange(0, i as int).map_values(|t: Toml| str_of(t)),
        decreases items.len() - i,
    {
        match &items[i] {
            Toml::Str(text) => {
                assert(items@[i as int] == Toml::Str(*text));
                let ghost before = strings@;
                let copy = text.clone();
                strings.push(copy);
                assert(strings@ == before.push(copy));
                assert(views(strings@) =~= views(before).push(copy@));
                assert(items@.subrange(0, i as int + 1).map_values(|t: Toml| str_of(t)) =~= items@.subrange(0, i as int).map_values(|t: Toml| str_of(t)).push(str_of(items@[i as int])));
            },
            other => {
                proof {
                    lemma_first_non_string(items@, i as int);
                }
                let mut e = String::from_str("must be an array of strings, but element ");
                let n = decimal_string(i as u64);
                e.append(n.as_str());
                e.append(" is ");
                let k = kind_name(other);
                e.append(k.as_str());
                return Err(e);
            },
        }
        i += 1;
    }
    proof {
        lemma_first_non_string(items@, i as int);
    }
    assert(items@.subrange(0, items@.len() as int) =~= items@);
    Ok(strings)
}

/// The first entry whose value is not a string.
pub open spec fn first_non_string_entry(entries: Seq<(String, Toml)>) -> Option<int> {
    first_non_string(entries.map_values(|e: (String, Toml)| e.1))
}

pub open spec fn pairs_result(r: Result<Vec<(String, String)>, String>) -> Result<Seq<(Seq<char>, Seq<char>)>, Seq<char>> {
    match r {
        Ok(v) => Ok(pairs_view(v@)),
        Err(e) => Err(e@),
    }
}

/// A value read as a table of strings, named `label` in a complaint.
pub open spec fn string_table_spec(item: Toml, label: Seq<char>) -> Result<Seq<(Seq<char>, Seq<char>)>, Seq<char>> {
    match entries_of(item) {
        None => Err("`"@ + label + "` must be a table of strings, found "@ + kind_name_spec(item)),
        Some(es) => match first_non_string_entry(es) {
            None => Ok(es.map_values(|e: (String, Toml)| (e.0@, str_of(e.1)))),
            Some(i) => Err("`"@ + label + "."@ + es[i].0@ + "` must be a string, found "@ + kind_name_spec(es[i].1)),
        },
    }
}

pub fn string_table(item: &Toml, label: &str) -> (r: Result<Vec<(String, String)>, String>)
    ensures
        pairs_result(r) == string_table_spec(*item, label@),
{
    let entries = match as_table_like(item) {
        None => {
            let mut e = String::from_str("`");
            e.append(label);
            e.append("` must be a table of strings, found ");
            let k = kind_name(item);
            e.append(k.as_str());
            return Err(e);
        },
        Some(entries) => entries,
    };
    let ghost values = entries@.map_values(|e: (String, Toml)| e.1);
    let mut strings: Vec<(String, String)> = Vec::new();
    let mut i: usize = 0;
    while i < entries.len()
        invariant
            i <= entries@.len(),
            entries_of(*item) == Some(entries@),
            values == entries@.map_values(|e: (String, Toml)| e.1),
            forall|j: int| 0 <= j < i ==> is_str(#[trigger] values[j]),
            pairs_view(strings@) == entries@.subrange(0, i as int).map_values(|e: (String, Toml)| (e.0@, str_of(e.1))),
        decreases entries.len() - i,
    {
        assert(values[i as int] == entries@[i as int].1);
        match &entries[i].1 {
            Toml::Str(text) => {
                assert(entries@[i as int].1 == Toml::Str(*text));
                let ghost before = strings@;
                let pair = (entries[i].0.clone(), text.clone());
                strings.push(pair);
                assert(strings@ == before.push(pair));
                assert(pairs_view(strings@) =~= pairs_view(before).push((pair.0@, pair.1@)));
                assert(entries@.subrange(0, i as int + 1).map_values(|e: (String, Toml)| (e.0@, str_of(e.1))) =~= entries@.subrange(0, i as int).map_values(|e: (String, Toml)| (e.0@, str_of(e.1))).push((entries@[i as int].0@, str_of(entries@[i as int].1))));
                assert(pairs_view(strings@) =~= entries@.subrange(0, i as int + 1).map_values(|e: (String, Toml)| (e.0@, str_of(e.1))));
            },
            other => {
                proof {
                    lemma_first_non_string(values, i as int);
                }
                let mut e = String::from_str("`");
                e.append(label);
                e.append(".");
                e.append(entries[i].0.as_str());
                e.append("` must be a string, found ");
                let k = kind_name(other);
                e.append(k.as_str());
                return Err(e);
            },
        }
        i += 1;
    }
    proof {
        lemma_first_non_string(values, i as int);
    }
    assert(entries@.subrange(0, entries@.len() as int) =~= entries@);
    Ok(strings)
}

/// `~` and `~/…` only, under `home` when there is one; `~user` is left as written.
pub open spec fn tilde_spec(raw: Seq<char>, home: Seq<char>) -> Seq<char> {
    if raw.len() > 0 && raw[0] == '~' && home.len() > 0 {
        if raw.len() == 1 {
            join_spec(home, Seq::empty())
        } else if raw[1] == '/' {
            join_spec(home, raw.skip(2))
        } else {
            raw
        }
    } else {
        raw
    }
}

/// A path written in a manifest, resolved: `~` expanded, and a relative one taken from `root`.
pub open spec fn resolve_path_spec(raw: Seq<char>, root: Seq<char>, home: Seq<char>) -> Seq<char> {
    let path = tilde_spec(raw, home);
    if path.len() > 0 && path[0] == '/' {
        path
    } else {
        join_spec(root, path)
    }
}

pub fn resolve_path(raw: &str, root: &str, home: &str) -> (r: String)
    ensures
        r@ == resolve_path_spec(raw@, root@, home@),
{
    let n = raw.unicode_len();
    let path = if n > 0 && raw.get_char(0) == '~' && home.unicode_len() > 0 {
        if n == 1 {
            join(home, "")
        } else if raw.get_char(1) == '/' {
            let rest = raw.substring_char(2, n);
            assert(rest@ =~= raw@.skip(2));
            join(home, rest)
        } else {
            String::from_str(raw)
        }
    } else {
        String::from_str(raw)
    };
    proof {
        reveal_strlit("");
        assert(""@ =~= Seq::<char>::empty());
    }
    if path.unicode_len() > 0 && path.as_str().get_char(0) == '/' {
        path
    } else {
        join(root, path.as_str())
    }
}

/// The components of a path as `..` and names fold them: `.` and empty ones go, `..` takes the
/// one before it, or stays when there is none.
pub open spec fn folded(parts: Seq<Seq<char>>) -> Seq<Seq<char>>
    decreases parts.len(),
{
    if parts.len() == 0 {
        Seq::empty()
    } else {
        let before = folded(parts.drop_last());
        let p = parts.last();
        if p.len() == 0 || p == seq!['.'] {
            before
        } else if p == seq!['.', '.'] {
            if before.len() > 0 {
                before.drop_last()
            } else {
                before.push(p)
            }
        } else {
            before.push(p)
        }
    }
}

/// Lexically normal: `.` and `..` folded away and nothing asked of the filesystem.
pub open spec fn normalize_spec(path: Seq<char>) -> Seq<char> {
    let parts = folded(pieces(path, '/'));
    let absolute = path.len() > 0 && path[0] == '/';
    if absolute {
        seq!['/'] + crate::text::joined(parts, seq!['/'])
    } else if parts.len() == 0 {
        seq!['.']
    } else {
        crate::text::joined(parts, seq!['/'])
    }
}

pub fn normalize(path: &str) -> (r: String)
    ensures
        r@ == normalize_spec(path@),
{
    let chars = chars_of(path);
    let parts = split_chars(&chars, '/');
    let ghost pv = parts@.map_values(|p: Vec<char>| p@);
    let mut kept: Vec<String> = Vec::new();
    let mut i: usize = 0;
    while i < parts.len()
        invariant
            i <= parts@.len(),
            pv == parts@.map_values(|p: Vec<char>| p@),
            pv == pieces(path@, '/'),
            views(kept@) == folded(pv.subrange(0, i as int)),
        decreases parts.len() - i,
    {
        let p = &parts[i];
        assert(pv.subrange(0, i as int + 1).drop_last() =~= pv.subrange(0, i as int));
        assert(pv.subrange(0, i as int + 1).last() == p@);
        let ghost before = views(kept@);
        if p.len() == 0 || (p.len() == 1 && p[0] == '.') {
            proof {
                if p@.len() == 1 {
                    assert(p@ =~= seq!['.']);
                }
            }
        } else if p.len() == 2 && p[0] == '.' && p[1] == '.' {
            assert(p@ =~= seq!['.', '.']);
            if kept.len() > 0 {
                kept.pop();
                assert(views(kept@) =~= before.drop_last());
            } else {
                kept.push(string_of(p.as_slice()));
                assert(views(kept@) =~= before.push(p@));
            }
        } else {
            proof {
                if p@.len() == 1 {
                    assert(p@ != seq!['.']);
                }
                if p@.len() == 2 {
                    assert(p@ != seq!['.', '.']);
                }
            }
            kept.push(string_of(p.as_slice()));
            assert(views(kept@) =~= before.push(p@));
        }
        i += 1;
    }
    assert(pv.subrange(0, parts@.len() as int) =~= pv);
    proof {
        reveal_strlit("/");
        assert("/"@ =~= seq!['/']);
    }
    let body = crate::text::join_words(&kept, "/");
    let n = path.unicode_len();
    if n > 0 && path.get_char(0) == '/' {
        let mut r = String::new();
        push_char(&mut r, '/');
        r.append(body.as_str());
        r
    } else if kept.len() == 0 {
        let mut r = String::new();
        push_char(&mut r, '.');
        r
    } else {
        body
    }
}


/// The first entry whose key is none of `allowed`.
pub open spec fn first_unknown(entries: Seq<(String, Toml)>, allowed: Seq<Seq<char>>) -> Option<int>
    decreases entries.len(),
{
    if entries.len() == 0 {
        None
    } else {
        match first_unknown(entries.drop_last(), allowed) {
            Some(i) => Some(i),
            None => if !allowed.contains(entries.last().0@) {
                Some(entries.len() - 1)
            } else {
                None
            },
        }
    }
}

proof fn lemma_first_unknown(entries: Seq<(String, Toml)>, allowed: Seq<Seq<char>>, i: int)
    requires
        0 <= i <= entries.len(),
        forall|j: int| 0 <= j < i ==> allowed.contains(#[trigger] entries[j].0@),
        i < entries.len() ==> !allowed.contains(entries[i].0@),
    ensures
        first_unknown(entries, allowed) == if i < entries.len() {
            Some(i)
        } else {
            None::<int>
        },
    decreases entries.len(),
{
    if entries.len() > 0 {
        if i < entries.len() - 1 {
            lemma_first_unknown(entries.drop_last(), allowed, i);
        } else {
            lemma_first_unknown(entries.drop_last(), allowed, entries.len() - 1);
        }
    }
}

fn allowed_has(allowed: &Vec<&'static str>, key: &str) -> (r: bool)
    ensures
        r == allowed@.map_values(|a: &str| a@).contains(key@),
{
    let ghost names = allowed@.map_values(|a: &str| a@);
    let mut k: usize = 0;
    while k < allowed.len()
        invariant
            k <= allowed@.len(),
            names == allowed@.map_values(|a: &str| a@),
            forall|j: int| 0 <= j < k ==> names[j] != key@,
        decreases allowed.len() - k,
    {
        if str_eq(allowed[k], key) {
            assert(names[k as int] == key@);
            return true;
        }
        k += 1;
    }
    false
}

/// Where the first key none of `allowed` names stands.
fn unknown_key(entries: &Vec<(String, Toml)>, allowed: &Vec<&'static str>) -> (r: Option<usize>)
    ensures
        match r {
            Some(i) => i < entries@.len() && first_unknown(entries@, allowed@.map_values(|a: &str| a@)) == Some(i as int),
            None => first_unknown(entries@, allowed@.map_values(|a: &str| a@)) is None,
        },
{
    let ghost names = allowed@.map_values(|a: &str| a@);
    let mut i: usize = 0;
    while i < entries.len()
        invariant
            i <= entries@.len(),
            names == allowed@.map_values(|a: &str| a@),
            forall|j: int| 0 <= j < i ==> names.contains(#[trigger] entries@[j].0@),
        decreases entries.len() - i,
    {
        if !allowed_has(allowed, entries[i].0.as_str()) {
            proof {
                lemma_first_unknown(entries@, names, i as int);
            }
            return Some(i);
        }
        i += 1;
    }
    proof {
        lemma_first_unknown(entries@, names, i as int);
    }
    None
}

/// The complaint about a key none of `allowed` names.
pub open spec fn unknown_message(table: Seq<char>, key: Seq<char>, expected: Seq<char>) -> Seq<char> {
    table + " has unknown key `"@ + key + "`; expected one of "@ + expected
}

/// The strings under `key` of a table, none when it is absent, named `label` in a complaint.
pub open spec fn strings_at(entries: Seq<(String, Toml)>, key: Seq<char>, label: Seq<char>) -> Result<Seq<Seq<char>>, Seq<char>> {
    match lookup_spec(entries, key) {
        None => Ok(Seq::empty()),
        Some(item) => match string_array_spec(item) {
            Ok(v) => Ok(v),
            Err(why) => Err("`"@ + label + "` "@ + why),
        },
    }
}

fn string_array_at(entries: &Vec<(String, Toml)>, key: &str, label: &str) -> (r: Result<Vec<String>, String>)
    ensures
        strings_result(r) == strings_at(entries@, key@, label@),
{
    match lookup(entries, key) {
        None => {
            let v: Vec<String> = Vec::new();
            assert(views(v@) =~= Seq::<Seq<char>>::empty());
            Ok(v)
        },
        Some(item) => match string_array(item) {
            Ok(v) => Ok(v),
            Err(why) => {
                let mut e = String::from_str("`");
                e.append(label);
                e.append("` ");
                e.append(why.as_str());
                Err(e)
            },
        },
    }
}

/// A docker service as plain values: its name, whether it is a one-shot, its standing note.
pub type ServiceView = (Seq<char>, bool, Option<Seq<char>>);

pub open spec fn service_view(s: DockerService) -> ServiceView {
    (
        s.name@,
        s.one_shot,
        match s.note {
            Some(n) => Some(n@),
            None => None,
        },
    )
}

/// The first name listed a second time.
pub open spec fn first_repeat(names: Seq<Seq<char>>) -> Option<int>
    decreases names.len(),
{
    if names.len() == 0 {
        None
    } else {
        match first_repeat(names.drop_last()) {
            Some(i) => Some(i),
            None => if names.drop_last().contains(names.last()) {
                Some(names.len() - 1)
            } else {
                None
            },
        }
    }
}

/// The note the notes table holds for `name`; a later entry wins.
pub open spec fn note_for(notes: Seq<(Seq<char>, Seq<char>)>, name: Seq<char>) -> Option<Seq<char>>
    decreases notes.len(),
{
    if notes.len() == 0 {
        None
    } else if notes.last().0 == name {
        Some(notes.last().1)
    } else {
        note_for(notes.drop_last(), name)
    }
}

/// The complaints about one-shots that are neither listed nor hidden, in name order.
pub open spec fn stray_one_shots(sorted: Seq<Seq<char>>, names: Seq<Seq<char>>, hidden: Seq<Seq<char>>) -> Seq<Seq<char>>
    decreases sorted.len(),
{
    if sorted.len() == 0 {
        Seq::empty()
    } else {
        let before = stray_one_shots(sorted.drop_last(), names, hidden);
        let n = sorted.last();
        if !names.contains(n) && !hidden.contains(n) {
            before.push("`docker.one_shot` names `"@ + n + "`, which is in neither `names` nor `hidden`"@)
        } else {
            before
        }
    }
}

/// The complaints about notes for services that are not shown, in name order.
pub open spec fn stray_notes(sorted: Seq<Seq<char>>, names: Seq<Seq<char>>, hidden: Seq<Seq<char>>) -> Seq<Seq<char>>
    decreases sorted.len(),
{
    if sorted.len() == 0 {
        Seq::empty()
    } else {
        let before = stray_notes(sorted.drop_last(), names, hidden);
        let n = sorted.last();
        if !names.contains(n) {
            before.push("[docker.notes] has a note for `"@ + n + "`, "@ + if hidden.contains(n) {
                "which is hidden, so the note is never shown"@
            } else {
                "which is not in `names`"@
            })
        } else {
            before
        }
    }
}

/// The services listed, hidden ones left out, and the complaint each hidden one earns.
pub open spec fn shown(names: Seq<Seq<char>>, one_shot: Seq<Seq<char>>, hidden: Seq<Seq<char>>, notes: Seq<(Seq<char>, Seq<char>)>) -> (Seq<ServiceView>, Seq<Seq<char>>)
    decreases names.len(),
{
    if names.len() == 0 {
        (Seq::empty(), Seq::empty())
    } else {
        let (services, problems) = shown(names.drop_last(), one_shot, hidden, notes);
        let n = names.last();
        if hidden.contains(n) {
            (services, problems.push("`"@ + n + "` is in both `names` and `hidden`; hidden wins, so it is not shown"@))
        } else {
            (services.push((n, one_shot.contains(n), note_for(notes, n))), problems)
        }
    }
}

/// The `[docker]` table as far as its shape goes: every key known and every field of the right
/// type, read as `names`, `one_shot`, `hidden` and `notes`.
pub open spec fn docker_ready(item: Toml, names: Seq<Seq<char>>, one_shot: Seq<Seq<char>>, hidden: Seq<Seq<char>>, notes: Seq<(Seq<char>, Seq<char>)>) -> bool {
    &&& entries_of(item) is Some
    &&& first_unknown(entries_of(item)->0, seq!["names"@, "one_shot"@, "hidden"@, "notes"@]) is None
    &&& strings_at(entries_of(item)->0, "names"@, "docker.names"@) == Ok::<Seq<Seq<char>>, Seq<char>>(names)
    &&& strings_at(entries_of(item)->0, "one_shot"@, "docker.one_shot"@) == Ok::<Seq<Seq<char>>, Seq<char>>(one_shot)
    &&& strings_at(entries_of(item)->0, "hidden"@, "docker.hidden"@) == Ok::<Seq<Seq<char>>, Seq<char>>(hidden)
    &&& (match lookup_spec(entries_of(item)->0, "notes"@) {
        None => Ok(Seq::empty()),
        Some(v) => string_table_spec(v, "docker.notes"@),
    }) == Ok::<Seq<(Seq<char>, Seq<char>)>, Seq<char>>(notes)
}

/// The `[docker]` table read: its services and the complaints that leave them usable, or the one
/// complaint that stops the manifest.
pub open spec fn docker_spec(item: Toml) -> Result<(Seq<ServiceView>, Seq<Seq<char>>), Seq<char>> {
    match entries_of(item) {
        None => Err("`docker` must be a table, found "@ + kind_name_spec(item)),
        Some(es) => match first_unknown(es, seq!["names"@, "one_shot"@, "hidden"@, "notes"@]) {
            Some(i) => Err(unknown_message("[docker]"@, es[i].0@, "`names`, `one_shot`, `hidden`, `notes`"@)),
            None => match strings_at(es, "names"@, "docker.names"@) {
                Err(e) => Err(e),
                Ok(names) => match strings_at(es, "one_shot"@, "docker.one_shot"@) {
                    Err(e) => Err(e),
                    Ok(one_shot) => match strings_at(es, "hidden"@, "docker.hidden"@) {
                        Err(e) => Err(e),
                        Ok(hidden) => match (match lookup_spec(es, "notes"@) {
                            None => Ok(Seq::empty()),
                            Some(v) => string_table_spec(v, "docker.notes"@),
                        }) {
                            Err(e) => Err(e),
                            Ok(notes) => match first_repeat(names) {
                                Some(i) => Err("`docker.names` lists `"@ + names[i] + "` twice"@),
                                None => {
                                    let (services, hidden_problems) = shown(names, one_shot, hidden, notes);
                                    Ok((
                                        services,
                                        stray_one_shots(sorted_set(one_shot), names, hidden) + stray_notes(
                                            sorted_set(notes.map_values(|p: (Seq<char>, Seq<char>)| p.0)),
                                            names,
                                            hidden,
                                        ) + hidden_problems,
                                    ))
                                },
                            },
                        },
                    },
                },
            },
        },
    }
}

fn contains_word(words: &Vec<String>, w: &str) -> (r: bool)
    ensures
        r == views(words@).contains(w@),
{
    let mut i: usize = 0;
    while i < words.len()
        invariant
            i <= words@.len(),
            forall|j: int| 0 <= j < i ==> words@[j]@ != w@,
        decreases words.len() - i,
    {
        if str_eq(words[i].as_str(), w) {
            assert(views(words@)[i as int] == w@);
            return true;
        }
        i += 1;
    }
    assert(!views(words@).contains(w@)) by {
        if views(words@).contains(w@) {
            let j = choose|j: int| 0 <= j < views(words@).len() && views(words@)[j] == w@;
            assert(words@[j]@ == w@);
        }
    }
    false
}

fn find_note(notes: &Vec<(String, String)>, name: &str) -> (r: Option<String>)
    ensures
        match r {
            Some(n) => note_for(pairs_view(notes@), name@) == Some(n@),
            None => note_for(pairs_view(notes@), name@) is None,
        },
{
    let ghost nv = pairs_view(notes@);
    let mut k = notes.len();
    assert(nv.subrange(0, k as int) =~= nv);
    while k > 0
        invariant
            k <= notes@.len(),
            nv == pairs_view(notes@),
            note_for(nv, name@) == note_for(nv.subrange(0, k as int), name@),
        decreases k,
    {
        assert(nv.subrange(0, k as int).drop_last() =~= nv.subrange(0, k - 1));
        assert(nv.subrange(0, k as int).last() == nv[k - 1]);
        if str_eq(notes[k - 1].0.as_str(), name) {
            return Some(notes[k - 1].1.clone());
        }
        k -= 1;
    }
    None
}

pub open spec fn docker_result(r: Result<Vec<DockerService>, String>, problems: Seq<Seq<char>>) -> Result<(Seq<ServiceView>, Seq<Seq<char>>), Seq<char>> {
    match r {
        Ok(v) => Ok((v@.map_values(|s: DockerService| service_view(s)), problems)),
        Err(e) => Err(e@),
    }
}

/// Hidden wins: a service is shown exactly when `names` lists it and `hidden` does not, whatever
/// else says of it, and the shown ones keep the order `names` gave them.
pub proof fn law_hidden_services_never_reach_the_model(
    names: Seq<Seq<char>>,
    one_shot: Seq<Seq<char>>,
    hidden: Seq<Seq<char>>,
    notes: Seq<(Seq<char>, Seq<char>)>,
)
    ensures
        forall|n: Seq<char>|
            (exists|i: int| 0 <= i < shown(names, one_shot, hidden, notes).0.len() && #[trigger] shown(names, one_shot, hidden, notes).0[i].0 == n)
                <==> (names.contains(n) && !hidden.contains(n)),
        shown(names, one_shot, hidden, notes).0.map_values(|s: ServiceView| s.0) == names.filter(|n: Seq<char>| !hidden.contains(n)),
    decreases names.len(),
{
    let keep = |n: Seq<char>| !hidden.contains(n);
    if names.len() == 0 {
        assert(names.filter(keep) =~= Seq::empty());
        assert(shown(names, one_shot, hidden, notes).0.map_values(|s: ServiceView| s.0) =~= Seq::empty());
    } else {
        let rest = names.drop_last();
        law_hidden_services_never_reach_the_model(rest, one_shot, hidden, notes);
        let before = shown(rest, one_shot, hidden, notes).0;
        let now = shown(names, one_shot, hidden, notes).0;
        let n = names.last();
        assert(names =~= rest.push(n));
        rest.lemma_filter_push(n, keep);
        if hidden.contains(n) {
            assert(now == before);
        } else {
            assert(now == before.push((n, one_shot.contains(n), note_for(notes, n))));
            assert(now.map_values(|s: ServiceView| s.0) =~= before.map_values(|s: ServiceView| s.0).push(n));
        }
        assert forall|m: Seq<char>|
            (exists|i: int| 0 <= i < now.len() && #[trigger] now[i].0 == m) <==> (names.contains(m) && !hidden.contains(m)) by {
            if exists|i: int| 0 <= i < now.len() && #[trigger] now[i].0 == m {
                let i = choose|i: int| 0 <= i < now.len() && #[trigger] now[i].0 == m;
                if i < before.len() {
                    assert(now[i] == before[i]);
                    assert(rest.contains(m) && !hidden.contains(m));
                    let j = choose|j: int| 0 <= j < rest.len() && rest[j] == m;
                    assert(names[j] == m);
                } else {
                    assert(m == n);
                    assert(names[names.len() - 1] == m);
                }
            }
            if names.contains(m) && !hidden.contains(m) {
                let j = choose|j: int| 0 <= j < names.len() && names[j] == m;
                if j < names.len() - 1 {
                    assert(rest[j] == m);
                    assert(rest.contains(m));
                    let i = choose|i: int| 0 <= i < before.len() && #[trigger] before[i].0 == m;
                    assert(now[i] == before[i]);
                } else {
                    assert(now[now.len() - 1].0 == m);
                }
            }
        }
    }
}

/// The `[docker]` table: every complaint that leaves the services usable is added to `problems`;
/// one that does not is the error.
pub fn docker_services(item: &Toml, problems: &mut Vec<String>) -> (r: Result<Vec<DockerService>, String>)
    ensures
        match (r, docker_spec(*item)) {
            (Ok(v), Ok((services, said))) => v@.map_values(|s: DockerService| service_view(s)) == services
                && views(final(problems)@) == views(old(problems)@) + said,
            (Err(e), Err(want)) => e@ == want && final(problems)@ == old(problems)@,
            _ => false,
        },
{
    proof {
        reveal_strlit("names");
        reveal_strlit("one_shot");
        reveal_strlit("hidden");
        reveal_strlit("notes");
    }
    let entries = match as_table_like(item) {
        None => {
            let mut e = String::from_str("`docker` must be a table, found ");
            let k = kind_name(item);
            e.append(k.as_str());
            return Err(e);
        },
        Some(entries) => entries,
    };
    let allowed: Vec<&'static str> = vec!["names", "one_shot", "hidden", "notes"];
    assert(allowed@.map_values(|a: &str| a@) =~= seq!["names"@, "one_shot"@, "hidden"@, "notes"@]);
    match unknown_key(entries, &allowed) {
        Some(i) => {
            let mut e = String::from_str("[docker]");
            e.append(" has unknown key `");
            e.append(entries[i].0.as_str());
            e.append("`; expected one of ");
            e.append("`names`, `one_shot`, `hidden`, `notes`");
            return Err(e);
        },
        None => {},
    }
    let ghost es = entries@;
    assert(entries_of(*item) == Some(es));
    let names = match string_array_at(entries, "names", "docker.names") {
        Err(e) => {
            return Err(e);
        },
        Ok(v) => v,
    };
    let one_shot = match string_array_at(entries, "one_shot", "docker.one_shot") {
        Err(e) => {
            return Err(e);
        },
        Ok(v) => v,
    };
    let hidden = match string_array_at(entries, "hidden", "docker.hidden") {
        Err(e) => {
            return Err(e);
        },
        Ok(v) => v,
    };
    let notes: Vec<(String, String)> = match lookup(entries, "notes") {
        None => {
            let n: Vec<(String, String)> = Vec::new();
            assert(pairs_view(n@) =~= Seq::<(Seq<char>, Seq<char>)>::empty());
            n
        },
        Some(v) => match string_table(v, "docker.notes") {
            Err(e) => {
                return Err(e);
            },
            Ok(t) => t,
        },
    };
    let ghost nv = pairs_view(notes@);
    assert((match lookup_spec(es, "notes"@) {
        None => Ok(Seq::empty()),
        Some(v) => string_table_spec(v, "docker.notes"@),
    }) == Ok::<Seq<(Seq<char>, Seq<char>)>, Seq<char>>(nv));
    let ghost names_v = views(names@);
    let mut i: usize = 0;
    while i < names.len()
        invariant
            i <= names@.len(),
            names_v == views(names@),
            first_repeat(names_v.subrange(0, i as int)) is None,
            docker_ready(*item, names_v, views(one_shot@), views(hidden@), nv),
        decreases names.len() - i,
    {
        let earlier: Vec<String> = clone_prefix(&names, i);
        assert(views(earlier@) =~= names_v.subrange(0, i as int));
        assert(names_v.subrange(0, i as int + 1).drop_last() =~= names_v.subrange(0, i as int));
        assert(names_v.subrange(0, i as int + 1).last() == names@[i as int]@);
        if contains_word(&earlier, names[i].as_str()) {
            proof {
                lemma_first_repeat_stays(names_v, i as int + 1);
                lemma_first_repeat_prefix(names_v, i as int + 1);
            }
            let mut e = String::from_str("`docker.names` lists `");
            e.append(names[i].as_str());
            e.append("` twice");
            return Err(e);
        }
        i += 1;
    }
    assert(names_v.subrange(0, names@.len() as int) =~= names_v);
    let ghost start = views(problems@);
    let sorted_one_shot = sorted_words(&one_shot);
    let mut k: usize = 0;
    while k < sorted_one_shot.len()
        invariant
            k <= sorted_one_shot@.len(),
            views(problems@) == start + stray_one_shots(views(sorted_one_shot@).subrange(0, k as int), views(names@), views(hidden@)),
        decreases sorted_one_shot.len() - k,
    {
        let n = sorted_one_shot[k].as_str();
        assert(views(sorted_one_shot@).subrange(0, k as int + 1).drop_last() =~= views(sorted_one_shot@).subrange(0, k as int));
        assert(views(sorted_one_shot@).subrange(0, k as int + 1).last() == n@);
        if !contains_word(&names, n) && !contains_word(&hidden, n) {
            let mut e = String::from_str("`docker.one_shot` names `");
            e.append(n);
            e.append("`, which is in neither `names` nor `hidden`");
            let ghost before = problems@;
            problems.push(e);
            assert(views(problems@) =~= views(before).push(e@));
        }
        k += 1;
    }
    assert(views(sorted_one_shot@).subrange(0, sorted_one_shot@.len() as int) =~= views(sorted_one_shot@));
    let ghost mid = views(problems@);
    let mut keys: Vec<String> = Vec::new();
    let mut j: usize = 0;
    while j < notes.len()
        invariant
            j <= notes@.len(),
            nv == pairs_view(notes@),
            views(keys@) == nv.subrange(0, j as int).map_values(|p: (Seq<char>, Seq<char>)| p.0),
        decreases notes.len() - j,
    {
        let ghost before = keys@;
        let key = notes[j].0.clone();
        keys.push(key);
        assert(keys@ == before.push(key));
        assert(views(keys@) =~= views(before).push(key@));
        assert(nv[j as int].0 == key@);
        assert(nv.subrange(0, j as int + 1).map_values(|p: (Seq<char>, Seq<char>)| p.0) =~= nv.subrange(0, j as int).map_values(|p: (Seq<char>, Seq<char>)| p.0).push(nv[j as int].0));
        j += 1;
    }
    assert(nv.subrange(0, notes@.len() as int) =~= nv);
    let sorted_keys = sorted_words(&keys);
    let mut m: usize = 0;
    while m < sorted_keys.len()
        invariant
            m <= sorted_keys@.len(),
            views(problems@) == mid + stray_notes(views(sorted_keys@).subrange(0, m as int), views(names@), views(hidden@)),
        decreases sorted_keys.len() - m,
    {
        let n = sorted_keys[m].as_str();
        assert(views(sorted_keys@).subrange(0, m as int + 1).drop_last() =~= views(sorted_keys@).subrange(0, m as int));
        assert(views(sorted_keys@).subrange(0, m as int + 1).last() == n@);
        if !contains_word(&names, n) {
            let mut e = String::from_str("[docker.notes] has a note for `");
            e.append(n);
            e.append("`, ");
            if contains_word(&hidden, n) {
                e.append("which is hidden, so the note is never shown");
            } else {
                e.append("which is not in `names`");
            }
            let ghost before = problems@;
            problems.push(e);
            assert(views(problems@) =~= views(before).push(e@));
        }
        m += 1;
    }
    assert(views(sorted_keys@).subrange(0, sorted_keys@.len() as int) =~= views(sorted_keys@));
    let ghost third = views(problems@);
    let mut services: Vec<DockerService> = Vec::new();
    let mut t: usize = 0;
    while t < names.len()
        invariant
            t <= names@.len(),
            nv == pairs_view(notes@),
            ({
                let (want, said) = shown(views(names@).subrange(0, t as int), views(one_shot@), views(hidden@), nv);
                services@.map_values(|s: DockerService| service_view(s)) == want && views(problems@) == third + said
            }),
        decreases names.len() - t,
    {
        let name = names[t].as_str();
        assert(views(names@).subrange(0, t as int + 1).drop_last() =~= views(names@).subrange(0, t as int));
        assert(views(names@).subrange(0, t as int + 1).last() == name@);
        if contains_word(&hidden, name) {
            let mut e = String::from_str("`");
            e.append(name);
            e.append("` is in both `names` and `hidden`; hidden wins, so it is not shown");
            let ghost before = problems@;
            problems.push(e);
            assert(views(problems@) =~= views(before).push(e@));
        } else {
            let service = DockerService {
                name: names[t].clone(),
                one_shot: contains_word(&one_shot, name),
                note: find_note(&notes, name),
            };
            let ghost before = services@;
            services.push(service);
            assert(services@.map_values(|s: DockerService| service_view(s)) =~= before.map_values(|s: DockerService| service_view(s)).push(service_view(service)));
        }
        t += 1;
    }
    assert(views(names@).subrange(0, names@.len() as int) =~= views(names@));
    proof {
        assert(first_repeat(views(names@)) is None);
        let (want, said) = shown(views(names@), views(one_shot@), views(hidden@), nv);
        assert(views(problems@) =~= start + (stray_one_shots(sorted_set(views(one_shot@)), views(names@), views(hidden@)) + stray_notes(sorted_set(nv.map_values(|p: (Seq<char>, Seq<char>)| p.0)), views(names@), views(hidden@)) + said));
    }
    Ok(services)
}

fn clone_prefix(words: &Vec<String>, k: usize) -> (r: Vec<String>)
    requires
        k <= words@.len(),
    ensures
        r@ == words@.subrange(0, k as int),
{
    let mut r: Vec<String> = Vec::new();
    let mut i: usize = 0;
    while i < k
        invariant
            i <= k <= words@.len(),
            r@ == words@.subrange(0, i as int),
        decreases k - i,
    {
        r.push(words[i].clone());
        i += 1;
    }
    r
}

proof fn lemma_first_repeat_stays(names: Seq<Seq<char>>, k: int)
    requires
        0 < k <= names.len(),
        names.subrange(0, k - 1).contains(names[k - 1]),
        first_repeat(names.subrange(0, k - 1)) is None,
    ensures
        first_repeat(names.subrange(0, k)) == Some(k - 1),
{
    assert(names.subrange(0, k).drop_last() =~= names.subrange(0, k - 1));
}


proof fn lemma_first_repeat_prefix(names: Seq<Seq<char>>, k: int)
    requires
        0 <= k <= names.len(),
        first_repeat(names.subrange(0, k)) is Some,
    ensures
        first_repeat(names) == first_repeat(names.subrange(0, k)),
    decreases names.len() - k,
{
    if k < names.len() {
        assert(names.subrange(0, k + 1).drop_last() =~= names.subrange(0, k));
        lemma_first_repeat_prefix(names, k + 1);
    } else {
        assert(names.subrange(0, k) =~= names);
    }
}


/// What a `[local.NAME]` table declares: its command, its working directory if it names one, and
/// its own variables.
pub type Fields = (Seq<Seq<char>>, Option<Seq<char>>, Seq<(Seq<char>, Seq<char>)>);

/// The fields read so far, with the unit's own `env` table read after them.
pub open spec fn with_env(es: Seq<(String, Toml)>, name: Seq<char>, cmd: Seq<Seq<char>>, cwd: Option<Seq<char>>) -> Result<Fields, Seq<char>> {
    match lookup_spec(es, "env"@) {
        None => Ok((cmd, cwd, Seq::empty())),
        Some(e) => match string_table_spec(e, "local."@ + name + ".env"@) {
            Err(m) => Err(m),
            Ok(env) => Ok((cmd, cwd, env)),
        },
    }
}

/// The `[local.NAME]` table read, or the one complaint that leaves the unit broken.
pub open spec fn local_fields_spec(name: Seq<char>, item: Toml, root: Seq<char>, home: Seq<char>) -> Result<Fields, Seq<char>> {
    let at = "[local."@ + name + "]"@;
    match entries_of(item) {
        None => Err(at + " must be a table, found "@ + kind_name_spec(item)),
        Some(es) => match first_unknown(es, seq!["cmd"@, "cwd"@, "env"@]) {
            Some(i) => Err(unknown_message(at, es[i].0@, "`cmd`, `cwd`, `env`"@)),
            None => match lookup_spec(es, "cmd"@) {
                None => Err(at + " has no `cmd`"@),
                Some(c) => match string_array_spec(c) {
                    Err(why) => Err(at + " `cmd` "@ + why),
                    Ok(cmd) => if cmd.len() == 0 {
                        Err(at + " `cmd` is an empty array"@)
                    } else {
                        match lookup_spec(es, "cwd"@) {
                            None => with_env(es, name, cmd, None),
                            Some(Toml::Str(w)) => with_env(es, name, cmd, Some(resolve_path_spec(w@, root, home))),
                            Some(other) => Err(at + " `cwd` must be a string, found "@ + kind_name_spec(other)),
                        }
                    },
                },
            },
        },
    }
}

fn local_fields(name: &str, item: &Toml, root: &str, home: &str) -> (r: Result<(Vec<String>, Option<String>, Vec<(String, String)>), String>)
    ensures
        match (r, local_fields_spec(name@, *item, root@, home@)) {
            (Ok((cmd, cwd, env)), Ok((c, w, e))) => views(cmd@) == c && opt_view(cwd) == w && pairs_view(env@) == e,
            (Err(m), Err(w)) => m@ == w,
            _ => false,
        },
{
    proof {
        reveal_strlit("cmd");
        reveal_strlit("cwd");
        reveal_strlit("env");
    }
    let mut at = String::from_str("[local.");
    at.append(name);
    at.append("]");
    let entries = match as_table_like(item) {
        None => {
            let mut e = at;
            e.append(" must be a table, found ");
            let k = kind_name(item);
            e.append(k.as_str());
            return Err(e);
        },
        Some(entries) => entries,
    };
    let allowed: Vec<&'static str> = vec!["cmd", "cwd", "env"];
    assert(allowed@.map_values(|a: &str| a@) =~= seq!["cmd"@, "cwd"@, "env"@]);
    match unknown_key(entries, &allowed) {
        Some(i) => {
            let mut e = at;
            e.append(" has unknown key `");
            e.append(entries[i].0.as_str());
            e.append("`; expected one of ");
            e.append("`cmd`, `cwd`, `env`");
            return Err(e);
        },
        None => {},
    }
    let cmd = match lookup(entries, "cmd") {
        None => {
            let mut e = at;
            e.append(" has no `cmd`");
            return Err(e);
        },
        Some(c) => match string_array(c) {
            Err(why) => {
                let mut e = at;
                e.append(" `cmd` ");
                e.append(why.as_str());
                return Err(e);
            },
            Ok(v) => v,
        },
    };
    if cmd.len() == 0 {
        let mut e = at;
        e.append(" `cmd` is an empty array");
        return Err(e);
    }
    let cwd = match lookup(entries, "cwd") {
        None => None,
        Some(Toml::Str(w)) => Some(resolve_path(w.as_str(), root, home)),
        Some(other) => {
            let mut e = at;
            e.append(" `cwd` must be a string, found ");
            let k = kind_name(other);
            e.append(k.as_str());
            return Err(e);
        },
    };
    let env = match lookup(entries, "env") {
        None => {
            let v: Vec<(String, String)> = Vec::new();
            assert(pairs_view(v@) =~= Seq::<(Seq<char>, Seq<char>)>::empty());
            v
        },
        Some(v) => {
            let mut label = String::from_str("local.");
            label.append(name);
            label.append(".env");
            match string_table(v, label.as_str()) {
                Err(m) => {
                    return Err(m);
                },
                Ok(t) => t,
            }
        },
    };
    Ok((cmd, cwd, env))
}

/// A local unit as plain values: name, command, working directory, variables, and the problem
/// that broke it.
pub type UnitView = (Seq<char>, Seq<Seq<char>>, Seq<char>, Seq<(Seq<char>, Seq<char>)>, Option<Seq<char>>);

pub open spec fn unit_view(u: LocalUnit) -> UnitView {
    (u.name@, views(u.cmd@), u.cwd@, pairs_view(u.env@), opt_view(u.problem))
}

/// The unit a `[local.NAME]` table declares: run from `root` unless it says otherwise, with its own
/// variables laid on the manifest's. One that cannot be read is kept, broken, with nothing to run.
pub open spec fn local_unit_spec(name: Seq<char>, item: Toml, top_env: Seq<(Seq<char>, Seq<char>)>, root: Seq<char>, home: Seq<char>) -> UnitView {
    match local_fields_spec(name, item, root, home) {
        Ok((cmd, cwd, env)) => (
            name,
            cmd,
            match cwd {
                Some(w) => w,
                None => root,
            },
            layered_spec(top_env, env),
            None,
        ),
        Err(p) => (name, Seq::empty(), root, top_env, Some(p)),
    }
}

fn local_unit(name: &str, item: &Toml, top_env: &Vec<(String, String)>, root: &str, home: &str) -> (u: LocalUnit)
    ensures
        unit_view(u) == local_unit_spec(name@, *item, pairs_view(top_env@), root@, home@),
{
    match local_fields(name, item, root, home) {
        Ok((cmd, cwd, env)) => {
            let cwd = match cwd {
                Some(w) => w,
                None => String::from_str(root),
            };
            let env = layered(top_env, &env);
            LocalUnit { name: String::from_str(name), cmd, cwd, env, problem: None }
        },
        Err(problem) => {
            let cmd: Vec<String> = Vec::new();
            assert(views(cmd@) =~= Seq::<Seq<char>>::empty());
            LocalUnit {
                name: String::from_str(name),
                cmd,
                cwd: String::from_str(root),
                env: copy_pairs(top_env),
                problem: Some(problem),
            }
        },
    }
}

/// Every unit of a `[local]` table, in the order the manifest wrote them.
pub open spec fn locals_spec(entries: Seq<(String, Toml)>, top_env: Seq<(Seq<char>, Seq<char>)>, root: Seq<char>, home: Seq<char>) -> Seq<UnitView> {
    entries.map_values(|e: (String, Toml)| local_unit_spec(e.0@, e.1, top_env, root, home))
}

pub open spec fn unit_views(units: Seq<LocalUnit>) -> Seq<UnitView> {
    units.map_values(|u: LocalUnit| unit_view(u))
}

fn locals(entries: &Vec<(String, Toml)>, top_env: &Vec<(String, String)>, root: &str, home: &str) -> (r: Vec<LocalUnit>)
    ensures
        unit_views(r@) == locals_spec(entries@, pairs_view(top_env@), root@, home@),
{
    let mut r: Vec<LocalUnit> = Vec::new();
    let mut i: usize = 0;
    while i < entries.len()
        invariant
            i <= entries@.len(),
            unit_views(r@) == locals_spec(entries@.subrange(0, i as int), pairs_view(top_env@), root@, home@),
        decreases entries.len() - i,
    {
        let ghost before = r@;
        let u = local_unit(entries[i].0.as_str(), &entries[i].1, top_env, root, home);
        r.push(u);
        assert(unit_views(r@) =~= unit_views(before).push(unit_view(u)));
        assert(locals_spec(entries@.subrange(0, i as int + 1), pairs_view(top_env@), root@, home@) =~= locals_spec(entries@.subrange(0, i as int), pairs_view(top_env@), root@, home@).push(local_unit_spec(entries@[i as int].0@, entries@[i as int].1, pairs_view(top_env@), root@, home@)));
        i += 1;
    }
    assert(entries@.subrange(0, entries@.len() as int) =~= entries@);
    r
}

/// The problems of the broken units, in order.
pub open spec fn unit_problems(units: Seq<UnitView>) -> Seq<Seq<char>>
    decreases units.len(),
{
    if units.len() == 0 {
        Seq::empty()
    } else {
        let before = unit_problems(units.drop_last());
        match units.last().4 {
            Some(p) => before.push(p),
            None => before,
        }
    }
}

/// An include as plain values: its name and the path of the manifest it points at.
pub type IncludeView = (Seq<char>, Seq<char>);

pub open spec fn include_views(v: Seq<Include>) -> Seq<IncludeView> {
    v.map_values(|i: Include| (i.name@, i.path@))
}

/// One `[includes.NAME]` table read: the manifest it points at, resolved and folded, or the
/// complaint about it.
pub open spec fn include_spec(name: Seq<char>, item: Toml, root: Seq<char>, home: Seq<char>) -> Result<IncludeView, Seq<char>> {
    let at = "[includes."@ + name + "]"@;
    match entries_of(item) {
        None => Err(at + " must be a table, found "@ + kind_name_spec(item)),
        Some(es) => match first_unknown(es, seq!["path"@]) {
            Some(i) => Err(unknown_message(at, es[i].0@, "`path`"@)),
            None => match lookup_spec(es, "path"@) {
                None => Err(at + " has no `path`"@),
                Some(Toml::Str(w)) => Ok((name, normalize_spec(resolve_path_spec(w@, root, home)))),
                Some(other) => Err(at + " `path` must be a string, found "@ + kind_name_spec(other)),
            },
        },
    }
}

fn include_of(name: &str, item: &Toml, root: &str, home: &str) -> (r: Result<Include, String>)
    ensures
        match (r, include_spec(name@, *item, root@, home@)) {
            (Ok(i), Ok(v)) => (i.name@, i.path@) == v,
            (Err(m), Err(w)) => m@ == w,
            _ => false,
        },
{
    proof {
        reveal_strlit("path");
    }
    let mut at = String::from_str("[includes.");
    at.append(name);
    at.append("]");
    let entries = match as_table_like(item) {
        None => {
            let mut e = at;
            e.append(" must be a table, found ");
            let k = kind_name(item);
            e.append(k.as_str());
            return Err(e);
        },
        Some(entries) => entries,
    };
    let allowed: Vec<&'static str> = vec!["path"];
    assert(allowed@.map_values(|a: &str| a@) =~= seq!["path"@]);
    match unknown_key(entries, &allowed) {
        Some(i) => {
            let mut e = at;
            e.append(" has unknown key `");
            e.append(entries[i].0.as_str());
            e.append("`; expected one of ");
            e.append("`path`");
            return Err(e);
        },
        None => {},
    }
    match lookup(entries, "path") {
        None => {
            let mut e = at;
            e.append(" has no `path`");
            Err(e)
        },
        Some(Toml::Str(w)) => {
            let resolved = resolve_path(w.as_str(), root, home);
            Ok(Include { name: String::from_str(name), path: normalize(resolved.as_str()) })
        },
        Some(other) => {
            let mut e = at;
            e.append(" `path` must be a string, found ");
            let k = kind_name(other);
            e.append(k.as_str());
            Err(e)
        },
    }
}

/// Each include of the table read, in order: those that could be, and the complaints about those
/// that could not.
pub open spec fn includes_read(entries: Seq<(String, Toml)>, root: Seq<char>, home: Seq<char>) -> (Seq<IncludeView>, Seq<Seq<char>>)
    decreases entries.len(),
{
    if entries.len() == 0 {
        (Seq::empty(), Seq::empty())
    } else {
        let (ok, bad) = includes_read(entries.drop_last(), root, home);
        match include_spec(entries.last().0@, entries.last().1, root, home) {
            Ok(i) => (ok.push(i), bad),
            Err(p) => (ok, bad.push(p)),
        }
    }
}

/// The `[includes]` table read, or the complaint that stops the manifest.
pub open spec fn includes_spec(item: Toml, root: Seq<char>, home: Seq<char>) -> Result<(Seq<IncludeView>, Seq<Seq<char>>), Seq<char>> {
    match entries_of(item) {
        None => Err("`includes` must be a table, found "@ + kind_name_spec(item)),
        Some(es) => Ok(includes_read(es, root, home)),
    }
}

fn includes_of(item: &Toml, root: &str, home: &str, problems: &mut Vec<String>) -> (r: Result<Vec<Include>, String>)
    ensures
        match (r, includes_spec(*item, root@, home@)) {
            (Ok(v), Ok((incs, said))) => include_views(v@) == incs && views(final(problems)@) == views(old(problems)@) + said,
            (Err(e), Err(w)) => e@ == w && final(problems)@ == old(problems)@,
            _ => false,
        },
{
    let entries = match as_table_like(item) {
        None => {
            let mut e = String::from_str("`includes` must be a table, found ");
            let k = kind_name(item);
            e.append(k.as_str());
            return Err(e);
        },
        Some(entries) => entries,
    };
    let ghost start = views(problems@);
    let mut found: Vec<Include> = Vec::new();
    let mut i: usize = 0;
    while i < entries.len()
        invariant
            i <= entries@.len(),
            entries_of(*item) == Some(entries@),
            ({
                let (ok, bad) = includes_read(entries@.subrange(0, i as int), root@, home@);
                include_views(found@) == ok && views(problems@) == start + bad
            }),
        decreases entries.len() - i,
    {
        assert(entries@.subrange(0, i as int + 1).drop_last() =~= entries@.subrange(0, i as int));
        assert(entries@.subrange(0, i as int + 1).last() == entries@[i as int]);
        match include_of(entries[i].0.as_str(), &entries[i].1, root, home) {
            Ok(inc) => {
                let ghost before = found@;
                found.push(inc);
                assert(include_views(found@) =~= include_views(before).push((inc.name@, inc.path@)));
            },
            Err(p) => {
                let ghost before = problems@;
                problems.push(p);
                assert(views(problems@) =~= views(before).push(p@));
            },
        }
        i += 1;
    }
    assert(entries@.subrange(0, entries@.len() as int) =~= entries@);
    Ok(found)
}


/// A project as plain values: root, manifest, name, variables, local units, docker services,
/// includes, and the problems that leave it usable.
pub type ProjectView = (
    Seq<char>,
    Seq<char>,
    Seq<char>,
    Seq<(Seq<char>, Seq<char>)>,
    Seq<UnitView>,
    Seq<ServiceView>,
    Seq<IncludeView>,
    Seq<Seq<char>>,
);

pub open spec fn project_view(p: Project) -> ProjectView {
    (
        p.root@,
        p.manifest@,
        p.name@,
        pairs_view(p.env@),
        unit_views(p.local@),
        p.docker@.map_values(|s: DockerService| service_view(s)),
        include_views(p.includes@),
        views(p.problems@),
    )
}

/// The manifest's own `[env]`.
pub open spec fn env_part(doc: Seq<(String, Toml)>) -> Result<Seq<(Seq<char>, Seq<char>)>, Seq<char>> {
    match lookup_spec(doc, "env"@) {
        None => Ok(Seq::empty()),
        Some(item) => string_table_spec(item, "env"@),
    }
}

/// The units of `[local]`.
pub open spec fn local_part(doc: Seq<(String, Toml)>, env: Seq<(Seq<char>, Seq<char>)>, root: Seq<char>, home: Seq<char>) -> Result<Seq<UnitView>, Seq<char>> {
    match lookup_spec(doc, "local"@) {
        None => Ok(Seq::empty()),
        Some(item) => match entries_of(item) {
            None => Err("`local` must be a table of units, found "@ + kind_name_spec(item)),
            Some(es) => Ok(locals_spec(es, env, root, home)),
        },
    }
}

/// The services of `[docker]` and what was said about them.
pub open spec fn docker_part(doc: Seq<(String, Toml)>) -> Result<(Seq<ServiceView>, Seq<Seq<char>>), Seq<char>> {
    match lookup_spec(doc, "docker"@) {
        None => Ok((Seq::empty(), Seq::empty())),
        Some(item) => docker_spec(item),
    }
}

/// The includes of `[includes]` and what was said about them.
pub open spec fn includes_part(doc: Seq<(String, Toml)>, root: Seq<char>, home: Seq<char>) -> Result<(Seq<IncludeView>, Seq<Seq<char>>), Seq<char>> {
    match lookup_spec(doc, "includes"@) {
        None => Ok((Seq::empty(), Seq::empty())),
        Some(item) => includes_spec(item, root, home),
    }
}

/// A parsed manifest at `manifest` read as a project: the first complaint about the file as a
/// whole, or the project with every complaint about a single unit, service or include listed in
/// the order the sections are read.
pub open spec fn build_spec(doc: Seq<(String, Toml)>, manifest: Seq<char>, home: Seq<char>) -> Result<ProjectView, Seq<char>> {
    match first_unknown(doc, seq!["env"@, "local"@, "docker"@, "includes"@]) {
        Some(i) => Err("unknown top-level key `"@ + doc[i].0@ + "`; expected one of `env`, `local`, `docker`, `includes`"@),
        None => {
            let root = root_spec(manifest);
            match env_part(doc) {
                Err(e) => Err(e),
                Ok(env) => match local_part(doc, env, root, home) {
                    Err(e) => Err(e),
                    Ok(units) => match docker_part(doc) {
                        Err(e) => Err(e),
                        Ok((services, said)) => match includes_part(doc, root, home) {
                            Err(e) => Err(e),
                            Ok((incs, more)) => Ok((
                                root,
                                manifest,
                                project_name_spec(root),
                                env,
                                units,
                                services,
                                incs,
                                unit_problems(units) + said + more,
                            )),
                        },
                    },
                },
            }
        },
    }
}

/// Reads the top-level table of a parsed manifest; `home` is where `~` leads.
pub fn build(doc: &Vec<(String, Toml)>, manifest: &str, home: &str) -> (r: Result<Project, String>)
    ensures
        match (r, build_spec(doc@, manifest@, home@)) {
            (Ok(p), Ok(v)) => project_view(p) == v,
            (Err(e), Err(w)) => e@ == w,
            _ => false,
        },
{
    proof {
        reveal_strlit("env");
        reveal_strlit("local");
        reveal_strlit("docker");
        reveal_strlit("includes");
    }
    let allowed: Vec<&'static str> = vec!["env", "local", "docker", "includes"];
    assert(allowed@.map_values(|a: &str| a@) =~= seq!["env"@, "local"@, "docker"@, "includes"@]);
    match unknown_key(doc, &allowed) {
        Some(i) => {
            let mut e = String::from_str("unknown top-level key `");
            e.append(doc[i].0.as_str());
            e.append("`; expected one of `env`, `local`, `docker`, `includes`");
            return Err(e);
        },
        None => {},
    }
    let root = root_of(manifest);
    let name = project_name(root.as_str());
    let env = match lookup(doc, "env") {
        None => {
            let v: Vec<(String, String)> = Vec::new();
            assert(pairs_view(v@) =~= Seq::<(Seq<char>, Seq<char>)>::empty());
            v
        },
        Some(item) => match string_table(item, "env") {
            Err(e) => {
                return Err(e);
            },
            Ok(t) => t,
        },
    };
    let local = match lookup(doc, "local") {
        None => {
            let v: Vec<LocalUnit> = Vec::new();
            assert(unit_views(v@) =~= Seq::<UnitView>::empty());
            v
        },
        Some(item) => match as_table_like(item) {
            None => {
                let mut e = String::from_str("`local` must be a table of units, found ");
                let k = kind_name(item);
                e.append(k.as_str());
                return Err(e);
            },
            Some(es) => locals(es, &env, root.as_str(), home),
        },
    };
    let ghost uv = unit_views(local@);
    let mut problems: Vec<String> = Vec::new();
    let mut i: usize = 0;
    while i < local.len()
        invariant
            i <= local@.len(),
            uv == unit_views(local@),
            views(problems@) == unit_problems(uv.subrange(0, i as int)),
        decreases local.len() - i,
    {
        assert(uv.subrange(0, i as int + 1).drop_last() =~= uv.subrange(0, i as int));
        assert(uv.subrange(0, i as int + 1).last() == unit_view(local@[i as int]));
        match &local[i].problem {
            Some(p) => {
                let ghost before = problems@;
                problems.push(p.clone());
                assert(views(problems@) =~= views(before).push(p@));
            },
            None => {},
        }
        i += 1;
    }
    assert(uv.subrange(0, local@.len() as int) =~= uv);
    let ghost after_units = views(problems@);
    let docker = match lookup(doc, "docker") {
        None => {
            let v: Vec<DockerService> = Vec::new();
            assert(v@.map_values(|s: DockerService| service_view(s)) =~= Seq::<ServiceView>::empty());
            v
        },
        Some(item) => match docker_services(item, &mut problems) {
            Err(e) => {
                return Err(e);
            },
            Ok(v) => v,
        },
    };
    let ghost after_docker = views(problems@);
    let includes = match lookup(doc, "includes") {
        None => {
            let v: Vec<Include> = Vec::new();
            assert(include_views(v@) =~= Seq::<IncludeView>::empty());
            v
        },
        Some(item) => match includes_of(item, root.as_str(), home, &mut problems) {
            Err(e) => {
                return Err(e);
            },
            Ok(v) => v,
        },
    };
    proof {
        match docker_part(doc@) {
            Ok((services, said)) => {
                assert(after_docker == after_units + said);
                match includes_part(doc@, root@, home@) {
                    Ok((incs, more)) => {
                        assert(views(problems@) == after_docker + more);
                        assert(views(problems@) =~= unit_problems(uv) + said + more);
                    },
                    Err(_) => {},
                }
            },
            Err(_) => {},
        }
    }
    Ok(Project {
        root,
        manifest: String::from_str(manifest),
        name,
        env,
        local,
        docker,
        includes,
        problems,
    })
}

impl Project {
    /// The project a parsed manifest at `manifest` declares: a syntax error as the parser put it,
    /// a complaint about the file's shape, or the project.
    pub fn from_document(parsed: Result<Vec<(String, Toml)>, String>, manifest: &str, home: &str) -> (r: Result<Project, LoadError>)
        ensures
            match parsed {
                Err(m) => match r {
                    Err(LoadError::Syntax { path, message }) => path@ == manifest@ && message@ == m@,
                    _ => false,
                },
                Ok(doc) => match (r, build_spec(doc@, manifest@, home@)) {
                    (Ok(p), Ok(v)) => project_view(p) == v,
                    (Err(LoadError::Schema { path, message }), Err(w)) => path@ == manifest@ && message@ == w,
                    _ => false,
                },
            },
    {
        match parsed {
            Err(message) => Err(LoadError::Syntax { path: String::from_str(manifest), message }),
            Ok(doc) => match build(&doc, manifest, home) {
                Ok(p) => Ok(p),
                Err(message) => Err(LoadError::Schema { path: String::from_str(manifest), message }),
            },
        }
    }

    /// The project the manifest text at `manifest` declares: a syntax error as the parser put it,
    /// a complaint about the file's shape, or the project.
    pub fn parse(text: &str, manifest: &str, home: &str) -> (r: Result<Project, LoadError>)
        ensures
            match toml_document_spec(text@) {
                Err(m) => match r {
                    Err(LoadError::Syntax { path, message }) => path@ == manifest@ && message@ == m,
                    _ => false,
                },
                Ok(doc) => match (r, build_spec(doc, manifest@, home@)) {
                    (Ok(p), Ok(v)) => project_view(p) == v,
                    (Err(LoadError::Schema { path, message }), Err(w)) => path@ == manifest@ && message@ == w,
                    _ => false,
                },
            },
    {
        Project::from_document(toml_document(text), manifest, home)
    }
}

impl LocalUnit {
    /// The variables the unit runs with: `base`, then the manifest's `[env]` and the unit's own,
    /// both already laid into the unit's; the innermost wins.
    pub fn env_over(&self, base: &Vec<(String, String)>) -> (r: Vec<(String, String)>)
        ensures
            pairs_view(r@) == layered_spec(pairs_view(base@), pairs_view(self.env@)),
            crate::env::env_map(pairs_view(r@)) == crate::env::env_map(pairs_view(base@)).union_prefer_right(
                crate::env::env_map(pairs_view(self.env@)),
            ),
    {
        layered(base, &self.env)
    }
}

} // verus!

//! A TOML document as the plain values a manifest or a record is read from: strings, arrays,
//! tables, integers, floats as they were written, and the name of any other kind of value.

use vstd::prelude::*;
use vstd::string::*;

use crate::text::str_eq;

verus! {

#[verifier::external_type_specification]
#[verifier::external_body]
pub struct ExTomlItem(toml_edit::Item);

#[verifier::external_type_specification]
#[verifier::external_body]
pub struct ExTomlValue(toml_edit::Value);

/// What `toml_edit` reads a text as: the top-level entries of the document, in order, each value
/// carried over one for one, or the words of its parse error.
pub uninterp spec fn toml_document_spec(text: Seq<char>) -> Result<Seq<(String, Toml)>, Seq<char>>;

/// `str::parse::<toml_edit::DocumentMut>` on `text`, its entries carried into the library's tree
/// (a float as its literal text), or its error's `to_string()`. The contract claims only that the
/// outcome is a function of the text alone.
#[verifier::external_body]
pub fn toml_document(text: &str) -> (r: Result<Vec<(String, Toml)>, String>)
    ensures
        match (r, toml_document_spec(text@)) {
            (Ok(d), Ok(s)) => d@ == s,
            (Err(e), Err(s)) => e@ == s,
            _ => false,
        },
{
    match text.parse::<toml_edit::DocumentMut>() {
        Ok(doc) => Ok(doc.iter().map(|(key, item)| (key.to_string(), toml_item(item))).collect()),
        Err(error) => Err(error.to_string()),
    }
}

#[verifier::external_type_specification]
#[verifier::external_body]
pub struct ExTomlDocument(toml_edit::DocumentMut);

/// What a `toml_edit` document holds: its top-level entries, in order, as the library's tree.
pub uninterp spec fn toml_entries(doc: toml_edit::DocumentMut) -> Seq<(String, Toml)>;

/// Whether the value under `key` is a table, inline or not.
pub open spec fn table_like_at(entries: Seq<(String, Toml)>, key: Seq<char>) -> bool {
    lookup_spec(entries, key) matches Some(t) && entries_of(t) is Some
}

/// The entries of the table under `key`.
pub open spec fn table_entries(entries: Seq<(String, Toml)>, key: Seq<char>) -> Seq<(String, Toml)> {
    match lookup_spec(entries, key) {
        Some(t) => match entries_of(t) {
            Some(e) => e,
            None => Seq::empty(),
        },
        None => Seq::empty(),
    }
}

/// A value that is not a table.
pub open spec fn not_table(v: Toml) -> bool {
    entries_of(v) is None
}

/// Every key other than `key` reads as it did.
pub open spec fn others_kept(before: Seq<(String, Toml)>, after: Seq<(String, Toml)>, key: Seq<char>) -> bool {
    forall|k: Seq<char>| k != key ==> #[trigger] lookup_spec(after, k) == lookup_spec(before, k)
}

/// An array of exactly `words`, as strings.
pub open spec fn words_item(item: Toml, words: Seq<Seq<char>>) -> bool {
    &&& item matches Toml::Array(items)
    &&& items@.len() == words.len()
    &&& forall|i: int| 0 <= i < words.len() ==> (#[trigger] items@[i] matches Toml::Str(w) && w@ == words[i])
}

/// What a printed document reads back as, next to the document printed: no key it did not have,
/// and every value that is not a table as it was, at the top and inside each table.
pub open spec fn reads_back(read: Seq<(String, Toml)>, printed: Seq<(String, Toml)>) -> bool {
    &&& forall|k: Seq<char>| #[trigger] lookup_spec(read, k) is Some ==> lookup_spec(printed, k) is Some
    &&& forall|k: Seq<char>| match #[trigger] lookup_spec(printed, k) {
        Some(v) => not_table(v) ==> lookup_spec(read, k) == Some(v),
        None => true,
    }
    &&& forall|k: Seq<char>, k2: Seq<char>|
        table_like_at(read, k) && #[trigger] lookup_spec(table_entries(read, k), k2) is Some
            ==> table_like_at(printed, k) && lookup_spec(table_entries(printed, k), k2) is Some
    &&& forall|k: Seq<char>, k2: Seq<char>| match #[trigger] lookup_spec(table_entries(printed, k), k2) {
        Some(w) => table_like_at(printed, k) && not_table(w) ==> table_like_at(read, k) && lookup_spec(
            table_entries(read, k),
            k2,
        ) == Some(w),
        None => true,
    }
}

/// `str::parse::<toml_edit::DocumentMut>` on `text`, or its error's `to_string()`: the document
/// holds what `toml_document` reads the same text as.
#[verifier::external_body]
pub fn toml_parse(text: &str) -> (r: Result<toml_edit::DocumentMut, String>)
    ensures
        match (r, toml_document_spec(text@)) {
            (Ok(d), Ok(s)) => toml_entries(d) == s,
            (Err(e), Err(s)) => e@ == s,
            _ => false,
        },
{
    text.parse::<toml_edit::DocumentMut>().map_err(|error| error.to_string())
}

/// `DocumentMut::iter`, each entry carried into the library's tree: the document's entries.
#[verifier::external_body]
pub fn toml_doc_entries(doc: &toml_edit::DocumentMut) -> (r: Vec<(String, Toml)>)
    ensures
        r@ == toml_entries(*doc),
{
    doc.iter().map(|(key, item)| (key.to_string(), toml_item(item))).collect()
}

/// `doc[key] = Item::Table(Table::new())`: an empty table under `key`, every other key untouched.
#[verifier::external_body]
pub fn toml_set_table(doc: &mut toml_edit::DocumentMut, key: &str)
    ensures
        match lookup_spec(toml_entries(*final(doc)), key@) {
            Some(Toml::Table(t)) => t@.len() == 0,
            _ => false,
        },
        others_kept(toml_entries(*old(doc)), toml_entries(*final(doc)), key@),
{
    doc[key] = toml_edit::Item::Table(toml_edit::Table::new());
}

/// `TableLike::remove` of `key` from the table under `table`: that key gone from it, its other
/// keys and every other top-level key untouched.
#[verifier::external_body]
pub fn toml_remove_in(doc: &mut toml_edit::DocumentMut, table: &str, key: &str)
    requires
        table_like_at(toml_entries(*old(doc)), table@),
    ensures
        table_like_at(toml_entries(*final(doc)), table@),
        others_kept(toml_entries(*old(doc)), toml_entries(*final(doc)), table@),
        lookup_spec(table_entries(toml_entries(*final(doc)), table@), key@) is None,
        others_kept(
            table_entries(toml_entries(*old(doc)), table@),
            table_entries(toml_entries(*final(doc)), table@),
            key@,
        ),
{
    if let Some(entries) = doc[table].as_table_like_mut() {
        entries.remove(key);
    }
}

/// `doc[table][key] = value(words)`: an array of the words under `key` in the table under
/// `table`, its other keys and every other top-level key untouched.
#[verifier::external_body]
pub fn toml_set_words(doc: &mut toml_edit::DocumentMut, table: &str, key: &str, words: &Vec<String>)
    requires
        table_like_at(toml_entries(*old(doc)), table@),
    ensures
        table_like_at(toml_entries(*final(doc)), table@),
        others_kept(toml_entries(*old(doc)), toml_entries(*final(doc)), table@),
        match lookup_spec(table_entries(toml_entries(*final(doc)), table@), key@) {
            Some(w) => words_item(w, crate::text::views(words@)),
            None => false,
        },
        others_kept(
            table_entries(toml_entries(*old(doc)), table@),
            table_entries(toml_entries(*final(doc)), table@),
            key@,
        ),
{
    doc[table][key] = toml_edit::value(words.iter().map(|w| w.as_str()).collect::<toml_edit::Array>());
}

/// `DocumentMut::to_string`: text that parses, and reads back as the document, every value that
/// is not a table where it was. A table left with nothing in it may not survive printing, so of
/// tables only the ones with such a value are said to come back.
#[verifier::external_body]
pub fn toml_print(doc: &toml_edit::DocumentMut) -> (r: String)
    ensures
        match toml_document_spec(r@) {
            Ok(d) => reads_back(d, toml_entries(*doc)),
            Err(_) => false,
        },
{
    doc.to_string()
}

/// A `toml_edit::Item` carried over into the library's tree, variant for variant.
#[verifier::external_body]
fn toml_item(item: &toml_edit::Item) -> Toml {
    match item {
        toml_edit::Item::Value(value) => toml_value(value),
        toml_edit::Item::Table(table) => Toml::Table(
            table.iter().map(|(key, item)| (key.to_string(), toml_item(item))).collect(),
        ),
        toml_edit::Item::ArrayOfTables(_) => Toml::Other(String::from("array of tables")),
        toml_edit::Item::None => Toml::Other(String::from("none")),
    }
}

/// A `toml_edit::Value` carried over into the library's tree, variant for variant.
#[verifier::external_body]
fn toml_value(value: &toml_edit::Value) -> Toml {
    match value {
        toml_edit::Value::String(text) => Toml::Str(text.value().clone()),
        toml_edit::Value::Integer(n) => Toml::Int(*n.value()),
        toml_edit::Value::Float(f) => Toml::Float(f.display_repr().into_owned()),
        toml_edit::Value::Array(items) => Toml::Array(items.iter().map(toml_value).collect()),
        toml_edit::Value::InlineTable(t) => Toml::Inline(
            t.iter().map(|(key, value)| (key.to_string(), toml_value(value))).collect(),
        ),
        toml_edit::Value::Boolean(_) => Toml::Other(String::from("boolean")),
        toml_edit::Value::Datetime(_) => Toml::Other(String::from("datetime")),
    }
}

/// How far a float's text has been read: the whole seconds, up to three places of the fraction,
/// and whether a point, a digit, or anything else has been seen.
pub struct Seconds {
    pub whole: nat,
    pub frac: nat,
    pub places: nat,
    pub dot: bool,
    pub digits: bool,
    pub bad: bool,
}

/// One more character of a float's text read; `first` when it is the text's first. Underscores
/// between digits are spelling only.
pub open spec fn seconds_step(s: Seconds, c: char, first: bool) -> Seconds {
    if c == '_' || (c == '+' && first) {
        s
    } else if c == '.' && !s.dot {
        Seconds { dot: true, ..s }
    } else if '0' <= c && c <= '9' {
        let d = ((c as u32) - 48) as nat;
        if !s.dot {
            Seconds { whole: s.whole * 10 + d, digits: true, ..s }
        } else if s.places < 3 {
            Seconds { frac: s.frac * 10 + d, places: s.places + 1, digits: true, ..s }
        } else {
            Seconds { digits: true, ..s }
        }
    } else {
        Seconds { bad: true, ..s }
    }
}

pub open spec fn seconds_scan(t: Seq<char>) -> Seconds
    decreases t.len(),
{
    if t.len() == 0 {
        Seconds { whole: 0, frac: 0, places: 0, dot: false, digits: false, bad: false }
    } else {
        seconds_step(seconds_scan(t.drop_last()), t.last(), t.len() == 1)
    }
}

/// What one unit of the last fraction place read is worth in milliseconds.
pub open spec fn place_worth(places: nat) -> nat {
    if places == 0 {
        1000
    } else if places == 1 {
        100
    } else if places == 2 {
        10
    } else {
        1
    }
}

/// The whole milliseconds a float written as seconds counts: a plain decimal, `+` allowed, with
/// any places past the third dropped. Nothing for a negative, an exponent, `inf`, `nan`, or a count
/// too long for a `u64`.
pub open spec fn millis_of_spec(t: Seq<char>) -> Option<u64> {
    let s = seconds_scan(t);
    let ms = s.whole * 1000 + s.frac * place_worth(s.places);
    if s.bad || !s.digits || ms > u64::MAX {
        None
    } else {
        Some(ms as u64)
    }
}

/// The milliseconds a float's text counts as seconds.
pub fn millis_of(text: &str) -> (r: Option<u64>)
    ensures
        r == millis_of_spec(text@),
{
    let n = text.unicode_len();
    let cap: u128 = 0x1_0000_0000_0000_0000;
    let mut whole: u128 = 0;
    let mut frac: u128 = 0;
    let mut places: u128 = 0;
    let mut dot = false;
    let mut digits = false;
    let mut bad = false;
    let mut i: usize = 0;
    while i < n
        invariant
            i <= n,
            n == text@.len(),
            cap == 0x1_0000_0000_0000_0000u128,
            ({
                let s = seconds_scan(text@.subrange(0, i as int));
                &&& whole == if s.whole < cap { s.whole } else { cap as nat }
                &&& frac == s.frac
                &&& places == s.places
                &&& s.places <= 3
                &&& s.frac < 1000
                &&& (s.places == 0 ==> s.frac == 0)
                &&& (s.places == 1 ==> s.frac < 10)
                &&& (s.places == 2 ==> s.frac < 100)
                &&& dot == s.dot
                &&& digits == s.digits
                &&& bad == s.bad
            }),
        decreases n - i,
    {
        let ghost before = text@.subrange(0, i as int);
        let ghost now = text@.subrange(0, i as int + 1);
        assert(now.drop_last() =~= before);
        assert(now.last() == text@[i as int]);
        let c = text.get_char(i);
        if c == '_' || (c == '+' && i == 0) {
        } else if c == '.' && !dot {
            dot = true;
        } else if '0' <= c && c <= '9' {
            let d = (c as u32 - 48) as u128;
            if !dot {
                if whole < cap {
                    whole = whole * 10 + d;
                    if whole > cap {
                        whole = cap;
                    }
                }
            } else if places < 3 {
                frac = frac * 10 + d;
                places = places + 1;
            }
            digits = true;
        } else {
            bad = true;
        }
        i += 1;
    }
    assert(text@.subrange(0, n as int) =~= text@);
    if bad || !digits || whole >= cap {
        return None;
    }
    let worth: u128 = if places == 0 {
        1000
    } else if places == 1 {
        100
    } else if places == 2 {
        10
    } else {
        1
    };
    let ms = whole * 1000 + frac * worth;
    if ms > 0xffff_ffff_ffff_ffff {
        None
    } else {
        Some(ms as u64)
    }
}

/// One TOML value. A table keeps its entries in the order the document wrote them.
#[derive(Debug)]
pub enum Toml {
    Str(String),
    Array(Vec<Toml>),
    Table(Vec<(String, Toml)>),
    Inline(Vec<(String, Toml)>),
    Int(i64),
    /// A float, as the document wrote it.
    Float(String),
    /// Any other value, by the name TOML gives its type: `boolean`, `datetime`,
    /// `array of tables`.
    Other(String),
}

/// The name of a value's type, as a complaint about it says it.
pub open spec fn kind_name_spec(item: Toml) -> Seq<char> {
    match item {
        Toml::Str(_) => "string"@,
        Toml::Array(_) => "array"@,
        Toml::Table(_) => "table"@,
        Toml::Inline(_) => "inline table"@,
        Toml::Int(_) => "integer"@,
        Toml::Float(_) => "float"@,
        Toml::Other(name) => name@,
    }
}

pub fn kind_name(item: &Toml) -> (r: String)
    ensures
        r@ == kind_name_spec(*item),
{
    match item {
        Toml::Str(_) => String::from_str("string"),
        Toml::Array(_) => String::from_str("array"),
        Toml::Table(_) => String::from_str("table"),
        Toml::Inline(_) => String::from_str("inline table"),
        Toml::Int(_) => String::from_str("integer"),
        Toml::Float(_) => String::from_str("float"),
        Toml::Other(name) => name.clone(),
    }
}

/// The entries of a table, inline or not.
pub open spec fn entries_of(item: Toml) -> Option<Seq<(String, Toml)>> {
    match item {
        Toml::Table(entries) => Some(entries@),
        Toml::Inline(entries) => Some(entries@),
        _ => None,
    }
}

pub fn as_table_like(item: &Toml) -> (r: Option<&Vec<(String, Toml)>>)
    ensures
        match (r, entries_of(*item)) {
            (Some(v), Some(e)) => v@ == e,
            (None, None) => true,
            _ => false,
        },
{
    match item {
        Toml::Table(entries) => Some(entries),
        Toml::Inline(entries) => Some(entries),
        _ => None,
    }
}

/// The value under `key`: the first entry of that name.
pub open spec fn lookup_spec(entries: Seq<(String, Toml)>, key: Seq<char>) -> Option<Toml>
    decreases entries.len(),
{
    if entries.len() == 0 {
        None
    } else {
        match lookup_spec(entries.drop_last(), key) {
            Some(v) => Some(v),
            None => if entries.last().0@ == key {
                Some(entries.last().1)
            } else {
                None
            },
        }
    }
}

proof fn lemma_lookup(entries: Seq<(String, Toml)>, key: Seq<char>, i: int)
    requires
        0 <= i <= entries.len(),
        forall|j: int| 0 <= j < i ==> entries[j].0@ != key,
        i < entries.len() ==> entries[i].0@ == key,
    ensures
        lookup_spec(entries, key) == if i < entries.len() {
            Some(entries[i].1)
        } else {
            None::<Toml>
        },
    decreases entries.len(),
{
    if entries.len() > 0 {
        if i < entries.len() - 1 {
            lemma_lookup(entries.drop_last(), key, i);
        } else {
            lemma_lookup(entries.drop_last(), key, entries.len() - 1);
        }
    }
}

pub fn lookup<'a>(entries: &'a Vec<(String, Toml)>, key: &str) -> (r: Option<&'a Toml>)
    ensures
        match (r, lookup_spec(entries@, key@)) {
            (Some(v), Some(w)) => *v == w,
            (None, None) => true,
            _ => false,
        },
{
    let mut i: usize = 0;
    while i < entries.len() && !str_eq(entries[i].0.as_str(), key)
        invariant
            i <= entries@.len(),
            forall|j: int| 0 <= j < i ==> entries@[j].0@ != key@,
        decreases entries.len() - i,
    {
        i += 1;
    }
    proof {
        lemma_lookup(entries@, key@, i as int);
    }
    if i < entries.len() {
        Some(&entries[i].1)
    } else {
        None
    }
}

} // verus!

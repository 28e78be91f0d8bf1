//! A JSON value as the plain values the daemon's wire, Herdr's socket and docker's output are read
//! from and written in.

use vstd::prelude::*;
use vstd::string::*;

use crate::text::{is_whitespace, str_eq, whitespace};

verus! {

#[verifier::external_type_specification]
#[verifier::external_body]
pub struct ExJsonValue(serde_json::Value);

/// What `serde_json` reads a text as: one value carried over one for one, or the words of its
/// parse error.
pub uninterp spec fn json_text_spec(text: Seq<char>) -> Result<Json, Seq<char>>;

/// `serde_json::from_str::<serde_json::Value>` on `text`, the value carried into the library's tree
/// (a number with a fraction or an exponent as `Num::Float`), or its error's `to_string()`. The
/// contract claims only that the outcome is a function of the text alone.
#[verifier::external_body]
pub fn json_text(text: &str) -> (r: Result<Json, String>)
    ensures
        match (r, json_text_spec(text@)) {
            (Ok(j), Ok(s)) => j == s,
            (Err(e), Err(s)) => e@ == s,
            _ => false,
        },
{
    match serde_json::from_str::<serde_json::Value>(text) {
        Ok(value) => Ok(json_of(&value)),
        Err(error) => Err(error.to_string()),
    }
}

/// A `serde_json::Value` carried over into the library's tree, variant for variant.
#[verifier::external_body]
fn json_of(value: &serde_json::Value) -> Json {
    match value {
        serde_json::Value::Null => Json::Null,
        serde_json::Value::Bool(b) => Json::Bool(*b),
        serde_json::Value::Number(n) => Json::Num(match (n.as_u64(), n.as_i64()) {
            (Some(u), _) => Num::Pos(u),
            (None, Some(i)) => Num::Neg(i),
            _ => Num::Float,
        }),
        serde_json::Value::String(text) => Json::Str(text.clone()),
        serde_json::Value::Array(items) => Json::Array(items.iter().map(json_of).collect()),
        serde_json::Value::Object(members) => Json::Object(
            members.iter().map(|(key, value)| (key.clone(), json_of(value))).collect(),
        ),
    }
}

/// Whether a line holds nothing but white space.
pub open spec fn blank(line: Seq<char>) -> bool {
    forall|i: int| 0 <= i < line.len() ==> is_whitespace(#[trigger] line[i])
}

/// One line of JSON read: nothing for a blank line, else what `serde_json` reads it as.
pub open spec fn line_spec(line: Seq<char>) -> Option<Result<Json, Seq<char>>> {
    if blank(line) {
        None
    } else {
        Some(json_text_spec(line))
    }
}

/// One line of JSON read, as a reply or a request is: `None` for a blank line.
pub fn parsed_line(line: &str) -> (r: Option<Result<Json, String>>)
    ensures
        match (r, line_spec(line@)) {
            (None, None) => true,
            (Some(Ok(j)), Some(Ok(s))) => j == s,
            (Some(Err(e)), Some(Err(s))) => e@ == s,
            _ => false,
        },
{
    let n = line.unicode_len();
    let mut i: usize = 0;
    while i < n
        invariant
            i <= n,
            n == line@.len(),
            forall|j: int| 0 <= j < i ==> is_whitespace(#[trigger] line@[j]),
        decreases n - i,
    {
        if !whitespace(line.get_char(i)) {
            return Some(json_text(line));
        }
        i += 1;
    }
    None
}

/// A JSON number as it was written: a whole number that is not negative, a negative one, or one
/// with a fraction or an exponent, whose value nothing here reads.
#[derive(Debug, Clone, Copy, PartialEq, Eq)]
pub enum Num {
    Pos(u64),
    Neg(i64),
    Float,
}

/// One JSON value. An object keeps its members in the order it holds them: the order the library
/// wrote them in, or key order for one `serde_json` read; each name occurs once.
#[derive(Debug)]
pub enum Json {
    Null,
    Bool(bool),
    Num(Num),
    Str(String),
    Array(Vec<Json>),
    Object(Vec<(String, Json)>),
}

/// The member `key` of an object: the first of that name.
pub open spec fn member(members: Seq<(String, Json)>, key: Seq<char>) -> Option<Json>
    decreases members.len(),
{
    if members.len() == 0 {
        None
    } else {
        match member(members.drop_last(), key) {
            Some(v) => Some(v),
            None => if members.last().0@ == key {
                Some(members.last().1)
            } else {
                None
            },
        }
    }
}

pub proof fn lemma_member(members: Seq<(String, Json)>, key: Seq<char>, i: int)
    requires
        0 <= i <= members.len(),
        forall|j: int| 0 <= j < i ==> members[j].0@ != key,
        i < members.len() ==> members[i].0@ == key,
    ensures
        member(members, key) == if i < members.len() {
            Some(members[i].1)
        } else {
            None::<Json>
        },
    decreases members.len(),
{
    if members.len() > 0 {
        if i < members.len() - 1 {
            lemma_member(members.drop_last(), key, i);
        } else {
            lemma_member(members.drop_last(), key, members.len() - 1);
        }
    }
}

/// `value[key]`: a member of an object, nothing for anything else.
pub open spec fn get_spec(value: Json, key: Seq<char>) -> Option<Json> {
    match value {
        Json::Object(members) => member(members@, key),
        _ => None,
    }
}

pub fn get<'a>(value: &'a Json, key: &str) -> (r: Option<&'a Json>)
    ensures
        match r {
            Some(v) => get_spec(*value, key@) == Some(*v),
            None => get_spec(*value, key@) is None,
        },
{
    let members = match value {
        Json::Object(members) => members,
        _ => {
            return None;
        },
    };
    let mut i: usize = 0;
    while i < members.len() && !str_eq(members[i].0.as_str(), key)
        invariant
            i <= members@.len(),
            forall|j: int| 0 <= j < i ==> members@[j].0@ != key@,
        decreases members.len() - i,
    {
        i += 1;
    }
    proof {
        lemma_member(members@, key@, i as int);
    }
    if i < members.len() {
        Some(&members[i].1)
    } else {
        None
    }
}

/// What an optional reference holds.
pub open spec fn held(value: Option<&Json>) -> Option<Json> {
    match value {
        Some(v) => Some(*v),
        None => None,
    }
}

/// The text of a string.
pub open spec fn str_spec(value: Option<Json>) -> Option<Seq<char>> {
    match value {
        Some(Json::Str(s)) => Some(s@),
        _ => None,
    }
}

pub fn as_str(value: Option<&Json>) -> (r: Option<&str>)
    ensures
        match r {
            Some(s) => str_spec(held(value)) == Some(s@),
            None => str_spec(held(value)) is None,
        },
{
    match value {
        Some(Json::Str(s)) => Some(s.as_str()),
        _ => None,
    }
}

/// A whole number that is not negative.
pub open spec fn u64_spec(value: Option<Json>) -> Option<u64> {
    match value {
        Some(Json::Num(Num::Pos(n))) => Some(n),
        _ => None,
    }
}

pub fn as_u64(value: Option<&Json>) -> (r: Option<u64>)
    ensures
        r == u64_spec(held(value)),
{
    match value {
        Some(Json::Num(Num::Pos(n))) => Some(*n),
        _ => None,
    }
}

/// A whole number that fits an `i64`.
pub open spec fn i64_spec(value: Option<Json>) -> Option<i64> {
    match value {
        Some(Json::Num(Num::Pos(n))) => if n <= i64::MAX {
            Some(n as i64)
        } else {
            None
        },
        Some(Json::Num(Num::Neg(n))) => Some(n),
        _ => None,
    }
}

pub fn as_i64(value: Option<&Json>) -> (r: Option<i64>)
    ensures
        r == i64_spec(held(value)),
{
    match value {
        Some(Json::Num(Num::Pos(n))) => if *n <= i64::MAX as u64 {
            Some(*n as i64)
        } else {
            None
        },
        Some(Json::Num(Num::Neg(n))) => Some(*n),
        _ => None,
    }
}

pub open spec fn bool_spec(value: Option<Json>) -> Option<bool> {
    match value {
        Some(Json::Bool(b)) => Some(b),
        _ => None,
    }
}

pub fn as_bool(value: Option<&Json>) -> (r: Option<bool>)
    ensures
        r == bool_spec(held(value)),
{
    match value {
        Some(Json::Bool(b)) => Some(*b),
        _ => None,
    }
}

/// A string as a JSON value.
pub fn text(s: &str) -> (r: Json)
    ensures
        r matches Json::Str(t) && t@ == s@,
{
    Json::Str(String::from_str(s))
}

/// The member `key` of an object, taken out of it; the rest of the object stays behind.
pub fn take(value: &mut Json, key: &str) -> (r: Option<Json>)
    ensures
        r == get_spec(*old(value), key@),
        (*old(value) is Object) == (*final(value) is Object),
{
    match value {
        Json::Object(members) => {
            let mut i: usize = 0;
            while i < members.len() && !str_eq(members[i].0.as_str(), key)
                invariant
                    i <= members@.len(),
                    forall|j: int| 0 <= j < i ==> members@[j].0@ != key@,
                decreases members.len() - i,
            {
                i += 1;
            }
            proof {
                lemma_member(members@, key@, i as int);
            }
            if i < members.len() {
                let (_, v) = members.remove(i);
                Some(v)
            } else {
                None
            }
        },
        _ => None,
    }
}

/// The names of an object's members, in order.
pub open spec fn keys_of(value: Json) -> Seq<Seq<char>> {
    match value {
        Json::Object(members) => members@.map_values(|m: (String, Json)| m.0@),
        _ => Seq::empty(),
    }
}

/// An object of one member.
pub fn single(k: &str, v: Json) -> (r: Json)
    ensures
        keys_of(r) == seq![k@],
        get_spec(r, k@) == Some(v),
{
    let entry = (String::from_str(k), v);
    let members = vec![entry];
    proof {
        lemma_member(members@, k@, 0);
        assert(members@.map_values(|m: (String, Json)| m.0@) =~= seq![k@]);
    }
    Json::Object(members)
}

/// An object of two members of different names.
pub fn pair(k1: &str, v1: Json, k2: &str, v2: Json) -> (r: Json)
    requires
        k1@ != k2@,
    ensures
        keys_of(r) == seq![k1@, k2@],
        get_spec(r, k1@) == Some(v1),
        get_spec(r, k2@) == Some(v2),
{
    let e1 = (String::from_str(k1), v1);
    let e2 = (String::from_str(k2), v2);
    let members = vec![e1, e2];
    proof {
        lemma_member(members@, k1@, 0);
        lemma_member(members@, k2@, 1);
        assert(members@.map_values(|m: (String, Json)| m.0@) =~= seq![k1@, k2@]);
    }
    Json::Object(members)
}

/// An object of three members of different names.
pub fn triple(k1: &str, v1: Json, k2: &str, v2: Json, k3: &str, v3: Json) -> (r: Json)
    requires
        k1@ != k2@,
        k1@ != k3@,
        k2@ != k3@,
    ensures
        keys_of(r) == seq![k1@, k2@, k3@],
        get_spec(r, k1@) == Some(v1),
        get_spec(r, k2@) == Some(v2),
        get_spec(r, k3@) == Some(v3),
{
    let e1 = (String::from_str(k1), v1);
    let e2 = (String::from_str(k2), v2);
    let e3 = (String::from_str(k3), v3);
    let members = vec![e1, e2, e3];
    proof {
        lemma_member(members@, k1@, 0);
        lemma_member(members@, k2@, 1);
        lemma_member(members@, k3@, 2);
        assert(members@.map_values(|m: (String, Json)| m.0@) =~= seq![k1@, k2@, k3@]);
    }
    Json::Object(members)
}

/// `value[key] = what` on an object: a member of that name takes the new value where it stands, and
/// a new one goes last. Anything but an object is left as it is.
pub fn insert(value: &mut Json, key: &str, what: Json)
    ensures
        match *old(value) {
            Json::Object(before) => *final(value) is Object && member(final(value)->Object_0@, key@) == Some(what)
                && (forall|k: Seq<char>| k != key@ ==> #[trigger] member(final(value)->Object_0@, k) == member(before@, k))
                && keys_of(*final(value)) == if keys_of(*old(value)).contains(key@) {
                    keys_of(*old(value))
                } else {
                    keys_of(*old(value)).push(key@)
                },
            _ => *final(value) == *old(value),
        },
{
    match value {
        Json::Object(members) => {
            let ghost before = members@;
            let mut i: usize = 0;
            while i < members.len() && !str_eq(members[i].0.as_str(), key)
                invariant
                    i <= members@.len(),
                    members@ == before,
                    forall|j: int| 0 <= j < i ==> members@[j].0@ != key@,
                decreases members.len() - i,
            {
                i += 1;
            }
            proof {
                lemma_member(before, key@, i as int);
            }
            let ghost names = before.map_values(|m: (String, Json)| m.0@);
            if i < members.len() {
                let name = members[i].0.clone();
                members.set(i, (name, what));
                proof {
                    let after = members@;
                    assert(after =~= before.update(i as int, (name, what)));
                    assert forall|j: int| 0 <= j < i implies after[j].0@ != key@ by {
                        assert(after[j] == before[j]);
                    }
                    lemma_member(after, key@, i as int);
                    assert forall|k: Seq<char>| k != key@ implies #[trigger] member(after, k) == member(before, k) by {
                        lemma_member_update(before, i as int, (name, what), k);
                    }
                    assert(after.map_values(|m: (String, Json)| m.0@) =~= names);
                    assert(names.contains(key@)) by {
                        assert(names[i as int] == key@);
                    }
                }
            } else {
                let entry = (String::from_str(key), what);
                members.push(entry);
                proof {
                    let after = members@;
                    assert(after.drop_last() =~= before);
                    assert forall|k: Seq<char>| k != key@ implies #[trigger] member(after, k) == member(before, k) by {
                    }
                    assert(after.map_values(|m: (String, Json)| m.0@) =~= names.push(key@));
                    assert(!names.contains(key@)) by {
                        if names.contains(key@) {
                            let j = choose|j: int| 0 <= j < names.len() && names[j] == key@;
                            assert(before[j].0@ == key@);
                        }
                    }
                }
            }
        },
        _ => {},
    }
}

/// Changing a member's value leaves every other name answering as it did.
proof fn lemma_member_update(members: Seq<(String, Json)>, i: int, entry: (String, Json), k: Seq<char>)
    requires
        0 <= i < members.len(),
        entry.0@ == members[i].0@,
        k != members[i].0@,
    ensures
        member(members.update(i, entry), k) == member(members, k),
    decreases members.len(),
{
    let after = members.update(i, entry);
    if i < members.len() - 1 {
        assert(after.drop_last() =~= members.drop_last().update(i, entry));
        lemma_member_update(members.drop_last(), i, entry, k);
        assert(after.last() == members.last());
    } else {
        assert(after.drop_last() =~= members.drop_last());
    }
}

} // verus!

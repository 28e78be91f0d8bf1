//! Handing manifest-writing to a coding agent: the command the user configured, the prompt it is
//! given, and the one shell line the two are typed into a pane as.

use vstd::prelude::*;
use vstd::string::*;

use crate::herdr::{expand_tilde, expand_tilde_spec};
use crate::paths::{ancestors, ancestors_spec, join, join_spec};
use crate::manifest::{first_non_string, str_of, string_array, string_array_spec, strings_result};
use crate::text::{is_whitespace, joined, push_char, views, whitespace};
use crate::tree::{
    as_table_like, entries_of, lookup, lookup_spec, others_kept, not_table, table_entries, table_like_at, toml_doc_entries,
    toml_document, toml_document_spec, toml_entries, toml_parse, toml_print, toml_remove_in, toml_set_table,
    toml_set_words, words_item, Toml,
};

verus! {

/// The skill is user-invocation only, so it is called the way a person would call it.
pub const SKILL_COMMAND: &'static str = "/herdr-dev-manifest";

/// Where the plugin's own config lives, under `home`.
pub open spec fn config_path_spec(home: Seq<char>) -> Seq<char> {
    join_spec(
        expand_tilde_spec(seq!['~'], home),
        ".config/herdr/plugins/config/herdr-dev/config.toml"@,
    )
}

pub fn config_path(home: &str) -> (r: String)
    ensures
        r@ == config_path_spec(home@),
{
    proof {
        reveal_strlit("~");
        assert("~"@ =~= seq!['~']);
    }
    let home_dir = expand_tilde("~", home);
    join(home_dir.as_str(), ".config/herdr/plugins/config/herdr-dev/config.toml")
}

/// The agent to run: argv, its first word the program.
#[derive(Debug, Clone, PartialEq, Eq)]
pub struct Config {
    pub command: Vec<String>,
}

/// A word with nothing but white space in it.
pub open spec fn blank(word: Seq<char>) -> bool {
    forall|i: int| 0 <= i < word.len() ==> is_whitespace(#[trigger] word[i])
}

/// The words of `[agent] command`, before they are checked for being blank: a bare string is one
/// word, an array of strings is one word each.
pub open spec fn command_words(item: Toml) -> Result<Seq<Seq<char>>, Seq<char>> {
    match item {
        Toml::Str(word) => Ok(seq![word@]),
        Toml::Array(items) => match first_non_string(items@) {
            None => Ok(items@.map_values(|t: Toml| str_of(t))),
            Some(_) => Err("agent config: [agent] command holds a non-string"@),
        },
        _ => Err("agent config: [agent] command must be a string or an array of strings"@),
    }
}

/// What a parsed config file configures: its `[agent]` table's `command`, which must hold at least
/// one word that is not blank.
pub open spec fn config_spec(doc: Seq<(String, Toml)>) -> Result<Seq<Seq<char>>, Seq<char>> {
    match lookup_spec(doc, "agent"@) {
        Some(item) => match entries_of(item) {
            Some(table) => match lookup_spec(table, "command"@) {
                Some(command) => match command_words(command) {
                    Ok(words) => if forall|i: int| 0 <= i < words.len() ==> blank(#[trigger] words[i]) {
                        Err("agent config: [agent] command is empty"@)
                    } else {
                        Ok(words)
                    },
                    Err(e) => Err(e),
                },
                None => Err("agent config: [agent] command is missing"@),
            },
            None => Err("agent config: no [agent] table"@),
        },
        None => Err("agent config: no [agent] table"@),
    }
}

fn is_blank(word: &str) -> (r: bool)
    ensures
        r == blank(word@),
{
    let chars = crate::text::chars_of(word);
    let mut i: usize = 0;
    while i < chars.len()
        invariant
            i <= chars@.len(),
            chars@ == word@,
            forall|j: int| 0 <= j < i ==> is_whitespace(#[trigger] word@[j]),
        decreases chars.len() - i,
    {
        if !whitespace(chars[i]) {
            return false;
        }
        i += 1;
    }
    true
}

fn all_blank(words: &Vec<String>) -> (r: bool)
    ensures
        r == forall|i: int| 0 <= i < words@.len() ==> blank(#[trigger] views(words@)[i]),
{
    let mut i: usize = 0;
    while i < words.len()
        invariant
            i <= words@.len(),
            forall|j: int| 0 <= j < i ==> blank(#[trigger] views(words@)[j]),
        decreases words.len() - i,
    {
        if !is_blank(words[i].as_str()) {
            assert(!blank(views(words@)[i as int]));
            return false;
        }
        i += 1;
    }
    true
}

/// A character a shell reads as itself.
pub open spec fn is_plain(c: char) -> bool {
    ('a' <= c && c <= 'z') || ('A' <= c && c <= 'Z') || ('0' <= c && c <= '9') || c == '_' || c
        == '-' || c == '.' || c == '/' || c == '=' || c == ':' || c == '@'
}

/// `word` with each single quote closed, escaped and reopened.
pub open spec fn escaped(word: Seq<char>) -> Seq<char>
    decreases word.len(),
{
    if word.len() == 0 {
        Seq::empty()
    } else {
        escaped(word.drop_last()) + if word.last() == '\'' {
            seq!['\'', '\\', '\'', '\'']
        } else {
            seq![word.last()]
        }
    }
}

/// A word as the pane's shell must be handed it: bare when every character is plain, otherwise in
/// single quotes.
pub open spec fn quoted(word: Seq<char>) -> Seq<char> {
    if word.len() > 0 && forall|i: int| 0 <= i < word.len() ==> is_plain(#[trigger] word[i]) {
        word
    } else {
        seq!['\''] + escaped(word) + seq!['\'']
    }
}

fn plain(c: char) -> (r: bool)
    ensures
        r == is_plain(c),
{
    ('a' <= c && c <= 'z') || ('A' <= c && c <= 'Z') || ('0' <= c && c <= '9') || c == '_' || c
        == '-' || c == '.' || c == '/' || c == '=' || c == ':' || c == '@'
}

/// `word`, quoted for the pane's shell.
fn quote(word: &str) -> (r: String)
    ensures
        r@ == quoted(word@),
{
    let n = word.unicode_len();
    let mut all_plain = true;
    let mut body = String::new();
    let mut i: usize = 0;
    while i < n
        invariant
            n == word@.len(),
            i <= n,
            body@ == escaped(word@.subrange(0, i as int)),
            all_plain == forall|j: int| 0 <= j < i ==> is_plain(#[trigger] word@[j]),
        decreases n - i,
    {
        let c = word.get_char(i);
        assert(word@.subrange(0, i as int + 1).drop_last() =~= word@.subrange(0, i as int));
        if c == '\'' {
            push_char(&mut body, '\'');
            push_char(&mut body, '\\');
            push_char(&mut body, '\'');
            push_char(&mut body, '\'');
        } else {
            push_char(&mut body, c);
        }
        assert(body@ =~= escaped(word@.subrange(0, i as int + 1)));
        if !plain(c) {
            all_plain = false;
        }
        i += 1;
    }
    assert(word@.subrange(0, n as int) =~= word@);
    if all_plain && n > 0 {
        String::from_str(word)
    } else {
        let mut r = String::new();
        push_char(&mut r, '\'');
        r.append(body.as_str());
        push_char(&mut r, '\'');
        assert(r@ =~= seq!['\''] + escaped(word@) + seq!['\'']);
        r
    }
}

/// Each word of `words`, quoted.
pub open spec fn quoted_all(words: Seq<Seq<char>>) -> Seq<Seq<char>> {
    words.map_values(|w: Seq<char>| quoted(w))
}

/// The prompt: the skill called with the directory the manifest belongs in.
pub open spec fn prompt_spec(dir: Seq<char>) -> Seq<char> {
    "/herdr-dev-manifest "@ + dir
}

/// A config file as it reads once `config_text` has written `words` into it over `before`: the
/// `[agent]` command is the words, `harness` is gone, and every other value reads as it did.
pub open spec fn config_written(read: Seq<(String, Toml)>, before: Seq<(String, Toml)>, words: Seq<Seq<char>>) -> bool {
    &&& table_like_at(read, "agent"@)
    &&& match lookup_spec(table_entries(read, "agent"@), "command"@) {
        Some(w) => words_item(w, words),
        None => false,
    }
    &&& lookup_spec(table_entries(read, "agent"@), "harness"@) is None
    &&& forall|k: Seq<char>| k != "agent"@ ==> match #[trigger] lookup_spec(before, k) {
        Some(v) => not_table(v) ==> lookup_spec(read, k) == Some(v),
        None => lookup_spec(read, k) is None,
    }
    &&& forall|k: Seq<char>, k2: Seq<char>| k != "agent"@ ==> match #[trigger] lookup_spec(table_entries(before, k), k2) {
        Some(w) => table_like_at(before, k) && not_table(w) ==> table_like_at(read, k) && lookup_spec(
            table_entries(read, k),
            k2,
        ) == Some(w),
        None => true,
    }
    &&& table_like_at(before, "agent"@) ==> forall|k2: Seq<char>| k2 != "command"@ && k2 != "harness"@ ==> match #[trigger] lookup_spec(
        table_entries(before, "agent"@),
        k2,
    ) {
        Some(w) => not_table(w) ==> lookup_spec(table_entries(read, "agent"@), k2) == Some(w),
        None => true,
    }
}

/// The text a config file holds once `config` is saved over `existing`: only the keys it owns are
/// written, so everything else in the file survives; a file that is not TOML is said to be so.
pub fn config_text(existing: &str, config: &Config) -> (r: Result<String, String>)
    ensures
        match toml_document_spec(existing@) {
            Err(m) => match r {
                Err(e) => e@ == "agent config: "@ + m,
                Ok(_) => false,
            },
            Ok(before) => match r {
                Ok(text) => match toml_document_spec(text@) {
                    Ok(read) => config_written(read, before, views(config.command@)),
                    Err(_) => false,
                },
                Err(_) => false,
            },
        },
{
    proof {
        reveal_strlit("agent config: ");
        reveal_strlit("agent");
        reveal_strlit("command");
        reveal_strlit("harness");
    }
    let mut doc = match toml_parse(existing) {
        Err(m) => {
            let mut e = String::from_str("agent config: ");
            e.append(m.as_str());
            return Err(e);
        },
        Ok(d) => d,
    };
    let ghost e0 = toml_entries(doc);
    let entries = toml_doc_entries(&doc);
    let tabled = match lookup(&entries, "agent") {
        Some(item) => as_table_like(item).is_some(),
        None => false,
    };
    if !tabled {
        toml_set_table(&mut doc, "agent");
    }
    let ghost e1 = toml_entries(doc);
    assert(table_like_at(e1, "agent"@));
    assert(others_kept(e0, e1, "agent"@));
    assert(table_like_at(e0, "agent"@) ==> e1 == e0);
    toml_remove_in(&mut doc, "agent", "harness");
    let ghost e2 = toml_entries(doc);
    toml_set_words(&mut doc, "agent", "command", &config.command);
    let ghost e3 = toml_entries(doc);
    let text = toml_print(&doc);
    proof {
        let read = toml_document_spec(text@)->Ok_0;
        assert("command"@ != "harness"@) by {
            assert("command"@[0] != "harness"@[0]);
        }
        let inner = table_entries(e3, "agent"@);
        let w = lookup_spec(inner, "command"@)->0;
        assert(lookup_spec(inner, "command"@) == Some(w));
        assert(not_table(w));
        assert(table_like_at(read, "agent"@));
        assert(lookup_spec(table_entries(read, "agent"@), "command"@) == Some(w));
        assert(lookup_spec(inner, "harness"@) == lookup_spec(table_entries(e2, "agent"@), "harness"@));
        if lookup_spec(table_entries(read, "agent"@), "harness"@) is Some {
            assert(lookup_spec(table_entries(e3, "agent"@), "harness"@) is Some);
        }
        assert forall|k: Seq<char>| k != "agent"@ implies match #[trigger] lookup_spec(e0, k) {
            Some(v) => not_table(v) ==> lookup_spec(read, k) == Some(v),
            None => lookup_spec(read, k) is None,
        } by {
            assert(lookup_spec(e3, k) == lookup_spec(e2, k));
            assert(lookup_spec(e2, k) == lookup_spec(e1, k));
            assert(lookup_spec(e1, k) == lookup_spec(e0, k));
            if lookup_spec(read, k) is Some {
                assert(lookup_spec(e3, k) is Some);
            }
        }
        assert forall|k: Seq<char>, k2: Seq<char>| k != "agent"@ implies match #[trigger] lookup_spec(table_entries(e0, k), k2) {
            Some(w) => table_like_at(e0, k) && not_table(w) ==> table_like_at(read, k) && lookup_spec(
                table_entries(read, k),
                k2,
            ) == Some(w),
            None => true,
        } by {
            assert(lookup_spec(e3, k) == lookup_spec(e2, k));
            assert(lookup_spec(e2, k) == lookup_spec(e1, k));
            assert(lookup_spec(e1, k) == lookup_spec(e0, k));
            assert(table_entries(e3, k) == table_entries(e0, k));
        }
        if table_like_at(e0, "agent"@) {
            assert forall|k2: Seq<char>| k2 != "command"@ && k2 != "harness"@ implies match #[trigger] lookup_spec(
                table_entries(e0, "agent"@),
                k2,
            ) {
                Some(w) => not_table(w) ==> lookup_spec(table_entries(read, "agent"@), k2) == Some(w),
                None => true,
            } by {
                assert(lookup_spec(table_entries(e3, "agent"@), k2) == lookup_spec(table_entries(e2, "agent"@), k2));
                assert(lookup_spec(table_entries(e2, "agent"@), k2) == lookup_spec(table_entries(e1, "agent"@), k2));
            }
        }
    }
    Ok(text)
}

impl Config {
    /// The agent a config file's text configures, or why it configures none; a syntax error is
    /// said as the parser put it.
    pub fn parse(text: &str) -> (r: Result<Config, String>)
        ensures
            match (toml_document_spec(text@), r) {
                (Err(m), Err(e)) => e@ == "agent config: "@ + m,
                (Ok(doc), Ok(c)) => config_spec(doc) == Ok::<Seq<Seq<char>>, Seq<char>>(views(c.command@)),
                (Ok(doc), Err(e)) => config_spec(doc) == Err::<Seq<Seq<char>>, Seq<char>>(e@),
                _ => false,
            },
    {
        Config::from_document(toml_document(text))
    }

    /// The agent a parsed config file configures, or why it configures none; a syntax error is
    /// said as the parser put it.
    pub fn from_document(parsed: Result<Vec<(String, Toml)>, String>) -> (r: Result<Config, String>)
        ensures
            match (parsed, r) {
                (Err(m), Err(e)) => e@ == "agent config: "@ + m@,
                (Ok(doc), Ok(c)) => config_spec(doc@) == Ok::<Seq<Seq<char>>, Seq<char>>(views(c.command@)),
                (Ok(doc), Err(e)) => config_spec(doc@) == Err::<Seq<Seq<char>>, Seq<char>>(e@),
                _ => false,
            },
    {
        let doc = match parsed {
            Err(m) => {
                let mut e = String::from_str("agent config: ");
                e.append(m.as_str());
                proof {
                    reveal_strlit("agent config: ");
                }
                return Err(e);
            },
            Ok(doc) => doc,
        };
        let table = match lookup(&doc, "agent") {
            Some(item) => match as_table_like(item) {
                Some(table) => table,
                None => return Err(String::from_str("agent config: no [agent] table")),
            },
            None => return Err(String::from_str("agent config: no [agent] table")),
        };
        let words: Vec<String> = match lookup(table, "command") {
            None => return Err(String::from_str("agent config: [agent] command is missing")),
            Some(Toml::Str(word)) => {
                let w = word.clone();
                let v = vec![w];
                assert(views(v@) =~= seq![word@]);
                v
            },
            Some(item) => match item {
                Toml::Array(_) => match string_array(item) {
                    Ok(v) => v,
                    Err(_) => return Err(String::from_str("agent config: [agent] command holds a non-string")),
                },
                _ => return Err(
                    String::from_str("agent config: [agent] command must be a string or an array of strings"),
                ),
            },
        };
        assert(command_words(lookup_spec(entries_of(lookup_spec(doc@, "agent"@).unwrap()).unwrap(), "command"@).unwrap()) == Ok::<Seq<Seq<char>>, Seq<char>>(views(words@)));
        if all_blank(&words) {
            return Err(String::from_str("agent config: [agent] command is empty"));
        }
        Ok(Config { command: words })
    }

    /// The command as one shell line.
    pub open spec fn command_line_spec(&self) -> Seq<char> {
        joined(quoted_all(views(self.command@)), seq![' '])
    }

    pub fn command_line(&self) -> (r: String)
        ensures
            r@ == self.command_line_spec(),
    {
        let mut words: Vec<String> = Vec::new();
        let mut i: usize = 0;
        while i < self.command.len()
            invariant
                i <= self.command@.len(),
                views(words@) == quoted_all(views(self.command@.subrange(0, i as int))),
            decreases self.command.len() - i,
        {
            let ghost before = words@;
            let q = quote(self.command[i].as_str());
            words.push(q);
            assert(views(words@) =~= quoted_all(views(self.command@.subrange(0, i as int + 1))))
                by {
                assert(views(words@) =~= views(before).push(q@));
            }
            i += 1;
        }
        assert(self.command@.subrange(0, self.command@.len() as int) =~= self.command@);
        proof {
            reveal_strlit(" ");
            assert(" "@ =~= seq![' ']);
        }
        crate::text::join_words(&words, " ")
    }

    /// The command followed by `prompt` as its one last argument, so an agent that takes an opening
    /// prompt starts with it submitted.
    pub fn command_line_with(&self, prompt: &str) -> (r: String)
        ensures
            r@ == self.command_line_spec() + seq![' '] + quoted(prompt@),
    {
        let mut r = self.command_line();
        push_char(&mut r, ' ');
        let q = quote(prompt);
        r.append(q.as_str());
        r
    }
}

/// What the agent is asked to do: run the skill on `dir`.
pub fn prompt(dir: &str) -> (r: String)
    ensures
        r@ == prompt_spec(dir@),
{
    let mut r = String::from_str(SKILL_COMMAND);
    push_char(&mut r, ' ');
    r.append(dir);
    proof {
        reveal_strlit("/herdr-dev-manifest");
        reveal_strlit("/herdr-dev-manifest ");
    }
    assert(r@ =~= prompt_spec(dir@));
    r
}

/// The pane directory a popup inherits from Herdr, as its variable read: nothing when it is unset
/// or empty, and a leading `~` taken to `home`.
pub fn active_pane_cwd(raw: Option<&str>, home: &str) -> (r: Option<String>)
    ensures
        match raw {
            None => r is None,
            Some(text) => if text@.len() == 0 {
                r is None
            } else {
                r matches Some(dir) && dir@ == expand_tilde_spec(text@, home@)
            },
        },
{
    match raw {
        None => None,
        Some(text) => if text.unicode_len() == 0 {
            None
        } else {
            Some(expand_tilde(text, home))
        },
    }
}

/// Where a repository would say it is one, for `from` and each directory above it, innermost
/// first.
pub fn git_markers(from: &str) -> (r: Vec<String>)
    ensures
        views(r@) == ancestors_spec(from@).map_values(|dir: Seq<char>| join_spec(dir, ".git"@)),
{
    let dirs = ancestors(from);
    let mut r: Vec<String> = Vec::new();
    let mut i: usize = 0;
    while i < dirs.len()
        invariant
            i <= dirs@.len(),
            views(dirs@) == ancestors_spec(from@),
            views(r@) == views(dirs@).subrange(0, i as int).map_values(|dir: Seq<char>| join_spec(dir, ".git"@)),
        decreases dirs.len() - i,
    {
        let ghost before = r@;
        let marker = join(dirs[i].as_str(), ".git");
        r.push(marker);
        assert(views(r@) =~= views(before).push(marker@));
        assert(views(dirs@).subrange(0, i as int + 1).map_values(|dir: Seq<char>| join_spec(dir, ".git"@)) =~= views(dirs@).subrange(0, i as int).map_values(|dir: Seq<char>| join_spec(dir, ".git"@)).push(join_spec(dirs@[i as int]@, ".git"@)));
        i += 1;
    }
    assert(views(dirs@).subrange(0, dirs@.len() as int) =~= views(dirs@));
    r
}

/// The repository holding `from`: the first of its ancestors, innermost first, that `has_git` says
/// holds a `.git`; `from` itself when none does.
pub open spec fn repo_root_spec(from: Seq<char>, has_git: Seq<bool>) -> Seq<char> {
    match crate::project::first_present(has_git, ancestors_spec(from).len() as int) {
        Some(i) => ancestors_spec(from)[i],
        None => from,
    }
}

pub fn repo_root(from: &str, has_git: &Vec<bool>) -> (r: String)
    ensures
        r@ == repo_root_spec(from@, has_git@),
{
    let dirs = ancestors(from);
    let found = crate::project::nearest_manifest(&dirs, has_git);
    proof {
        crate::project::lemma_first_present_bound(has_git@, dirs@.len() as int);
        assert(views(dirs@).len() == dirs@.len());
        match crate::project::first_present(has_git@, dirs@.len() as int) {
            Some(i) => assert(views(dirs@)[i] == dirs@[i]@),
            None => {},
        }
    }
    match found {
        Some(dir) => dir,
        None => String::from_str(from),
    }
}

/// An agent started in a pane of its own: the pane Herdr split off for it, and the directory it
/// works in.
#[derive(Debug, Clone, PartialEq, Eq)]
pub struct Launched {
    pub pane_id: String,
    pub dir: String,
}

} // verus!

//! The facts a local unit's process is judged by: the mise binary it is run through, and whether a
//! pid a record names is still the process that record was written for.

use vstd::prelude::*;
use vstd::string::*;

use crate::env::{env_map, lemma_env_map_concat, pairs_view};
use crate::herdr::{expand_tilde, expand_tilde_spec};
use crate::text::{chars_of, lines, lines_of, parse_unsigned, parse_unsigned_spec, str_eq, views, words_of};

verus! {

/// Spelled out because a popup inherits no `PATH` worth trusting.
pub const MISE: &'static str = "~/.local/bin/mise";

/// What a local unit is started from: the manifest's two layers of env only; the process layer under
/// it is the daemon's own, added at spawn.
#[derive(Debug, Clone, PartialEq, Eq)]
pub struct Spec {
    pub name: String,
    pub cmd: Vec<String>,
    pub cwd: String,
    pub env: Vec<(String, String)>,
    pub tty: bool,
}

/// A missing toolchain must fail fast into the log rather than hang on a silent download.
pub const NO_AUTO_INSTALL: &'static str = "MISE_EXEC_AUTO_INSTALL";

/// A unit's env is cleared and rebuilt at spawn, so the terminal type of a `tty` unit is decided
/// here rather than inherited from whatever started the daemon; a manifest may still say otherwise.
pub const TERM: &'static str = "TERM";

pub const TERM_TYPE: &'static str = "xterm-256color";

/// Everything about a spawn but the fork: the program, its arguments, the directory it runs in, and
/// the environment it gets after a clear, as pairs of which a later one for a key wins.
#[derive(Debug, Clone, PartialEq, Eq)]
pub struct Recipe {
    pub program: String,
    pub args: Vec<String>,
    pub cwd: String,
    pub env: Vec<(String, String)>,
}

/// The layers of a unit's environment, innermost last: `base` (the daemon's own), the terminal
/// type for a `tty` unit, the manifest's, then the one the recipe always sets.
pub open spec fn recipe_env(
    base: Seq<(Seq<char>, Seq<char>)>,
    tty: bool,
    own: Seq<(Seq<char>, Seq<char>)>,
) -> Seq<(Seq<char>, Seq<char>)> {
    base + (if tty {
        seq![("TERM"@, "xterm-256color"@)]
    } else {
        Seq::empty()
    }) + own + seq![("MISE_EXEC_AUTO_INSTALL"@, "false"@)]
}

fn push_all(into: &mut Vec<(String, String)>, pairs: &Vec<(String, String)>)
    ensures
        pairs_view(final(into)@) == pairs_view(old(into)@) + pairs_view(pairs@),
{
    let ghost start = pairs_view(into@);
    let mut i: usize = 0;
    while i < pairs.len()
        invariant
            i <= pairs@.len(),
            pairs_view(into@) == start + pairs_view(pairs@.subrange(0, i as int)),
        decreases pairs.len() - i,
    {
        let ghost before = into@;
        let pair = (pairs[i].0.clone(), pairs[i].1.clone());
        into.push(pair);
        assert(pairs_view(into@) =~= pairs_view(before).push((pair.0@, pair.1@)));
        assert(pairs_view(pairs@.subrange(0, i as int + 1)) =~= pairs_view(pairs@.subrange(0, i as int)).push(
            (pairs@[i as int].0@, pairs@[i as int].1@),
        ));
        i += 1;
    }
    assert(pairs@.subrange(0, pairs@.len() as int) =~= pairs@);
}

/// The recipe a unit is spawned from: `mise exec -- <cmd>` from the unit's own directory, on the
/// environment `base` with the unit's layers over it.
pub fn command(spec: &Spec, mise: &str, base: &Vec<(String, String)>) -> (r: Recipe)
    ensures
        r.program@ == mise@,
        views(r.args@) == seq!["exec"@, "--"@] + views(spec.cmd@),
        r.cwd@ == spec.cwd@,
        pairs_view(r.env@) == recipe_env(pairs_view(base@), spec.tty, pairs_view(spec.env@)),
{
    let mut args: Vec<String> = Vec::new();
    args.push(String::from_str("exec"));
    args.push(String::from_str("--"));
    let mut i: usize = 0;
    while i < spec.cmd.len()
        invariant
            i <= spec.cmd@.len(),
            views(args@) == seq!["exec"@, "--"@] + views(spec.cmd@.subrange(0, i as int)),
        decreases spec.cmd.len() - i,
    {
        let ghost before = args@;
        let word = spec.cmd[i].clone();
        args.push(word);
        assert(views(args@) =~= views(before).push(word@));
        assert(views(spec.cmd@.subrange(0, i as int + 1)) =~= views(spec.cmd@.subrange(0, i as int)).push(spec.cmd@[i as int]@));
        i += 1;
    }
    assert(spec.cmd@.subrange(0, spec.cmd@.len() as int) =~= spec.cmd@);
    let mut env: Vec<(String, String)> = Vec::new();
    push_all(&mut env, base);
    assert(pairs_view(env@) =~= pairs_view(base@));
    let ghost after_base = pairs_view(env@);
    if spec.tty {
        env.push((String::from_str(TERM), String::from_str(TERM_TYPE)));
        assert(pairs_view(env@) =~= after_base + seq![("TERM"@, "xterm-256color"@)]);
    } else {
        assert(pairs_view(env@) =~= after_base + Seq::<(Seq<char>, Seq<char>)>::empty());
    }
    let ghost after_term = pairs_view(env@);
    push_all(&mut env, &spec.env);
    let ghost after_own = pairs_view(env@);
    env.push((String::from_str(NO_AUTO_INSTALL), String::from_str("false")));
    assert(pairs_view(env@) =~= after_own + seq![("MISE_EXEC_AUTO_INSTALL"@, "false"@)]);
    Recipe { program: String::from_str(mise), args, cwd: spec.cwd.clone(), env }
}

/// Whatever the daemon's own environment or the manifest says, a unit never installs a toolchain
/// on the fly.
pub proof fn law_auto_install_is_always_off(
    base: Seq<(Seq<char>, Seq<char>)>,
    tty: bool,
    own: Seq<(Seq<char>, Seq<char>)>,
)
    ensures
        env_map(recipe_env(base, tty, own)).dom().contains("MISE_EXEC_AUTO_INSTALL"@),
        env_map(recipe_env(base, tty, own))["MISE_EXEC_AUTO_INSTALL"@] == "false"@,
{
    let e = recipe_env(base, tty, own);
    assert(e.drop_last() =~= base + (if tty {
        seq![("TERM"@, "xterm-256color"@)]
    } else {
        Seq::empty()
    }) + own);
}

/// The environment a unit runs with: the manifest's variables win over the terminal type, which
/// wins over the daemon's own, and only the auto-install switch is fixed over all of them.
pub proof fn law_the_units_env_wins(
    base: Seq<(Seq<char>, Seq<char>)>,
    tty: bool,
    own: Seq<(Seq<char>, Seq<char>)>,
)
    ensures
        env_map(recipe_env(base, tty, own)) == env_map(base).union_prefer_right(
            env_map(
                if tty {
                    seq![("TERM"@, "xterm-256color"@)]
                } else {
                    Seq::empty()
                },
            ),
        ).union_prefer_right(env_map(own)).insert("MISE_EXEC_AUTO_INSTALL"@, "false"@),
{
    let term: Seq<(Seq<char>, Seq<char>)> = if tty {
        seq![("TERM"@, "xterm-256color"@)]
    } else {
        Seq::empty()
    };
    let last: Seq<(Seq<char>, Seq<char>)> = seq![("MISE_EXEC_AUTO_INSTALL"@, "false"@)];
    lemma_env_map_concat(base, term);
    lemma_env_map_concat(base + term, own);
    lemma_env_map_concat(base + term + own, last);
    assert(last.drop_last() =~= Seq::<(Seq<char>, Seq<char>)>::empty());
    assert(env_map(last.drop_last()) == Map::<Seq<char>, Seq<char>>::empty());
    assert(env_map(last) =~= Map::<Seq<char>, Seq<char>>::empty().insert("MISE_EXEC_AUTO_INSTALL"@, "false"@));
    assert(env_map(base + term + own).union_prefer_right(env_map(last)) =~= env_map(base + term + own).insert(
        "MISE_EXEC_AUTO_INSTALL"@,
        "false"@,
    ));
}

/// The mise binary, under `home`.
pub fn mise_path(home: &str) -> (r: String)
    ensures
        r@ == expand_tilde_spec("~/.local/bin/mise"@, home@),
{
    expand_tilde(MISE, home)
}

/// What `ps -o pgid=` said of a process, read as a group: whether the process leads its own group.
/// A unit is spawned with `setsid(2)`, so anything whose group is not its own pid is not one of ours.
pub open spec fn leads_spec(pid: u32, pgid: Option<Seq<char>>) -> bool {
    match pgid {
        Some(text) => parse_unsigned_spec(text, 0xffff_ffff) == Some(pid as nat),
        None => false,
    }
}

pub fn leads_its_group(pid: u32, pgid: Option<&str>) -> (r: bool)
    ensures
        r == leads_spec(
            pid,
            match pgid {
                Some(t) => Some(t@),
                None => None,
            },
        ),
{
    match pgid {
        None => false,
        Some(text) => {
            let chars = chars_of(text);
            assert(chars@.subrange(0, chars@.len() as int) =~= text@);
            match parse_unsigned(&chars, 0, chars.len(), 0xffff_ffff) {
                Some(group) => group == pid as u64,
                None => false,
            }
        },
    }
}

/// Whether the pid a record names is still the process that record was written for: it is alive,
/// `ps -o lstart=` reads now as it read at spawn, and it leads its own group. Without a recorded
/// start time a pid says nothing, and killing a group on a guess is worse than leaving a unit
/// behind.
pub fn still_running(
    pid: u32,
    ps_start: Option<&str>,
    alive: bool,
    lstart: Option<&str>,
    pgid: Option<&str>,
) -> (r: bool)
    ensures
        r == (alive && match (ps_start, lstart) {
            (Some(recorded), Some(current)) => recorded@ == current@ && leads_spec(
                pid,
                match pgid {
                    Some(t) => Some(t@),
                    None => None,
                },
            ),
            _ => false,
        }),
{
    if !alive {
        return false;
    }
    match (ps_start, lstart) {
        (Some(recorded), Some(current)) => str_eq(recorded, current) && leads_its_group(pid, pgid),
        _ => false,
    }
}

/// Whether a line of `ps -ax -o pid=,pgid=` puts its process in `pgid`.
pub open spec fn in_group(line: Seq<char>, pgid: u32) -> bool {
    let columns = words_of(line);
    columns.len() >= 2 && parse_unsigned_spec(columns[1], 0xffff_ffff) == Some(pgid as nat)
}

/// Whether nothing in the process table `ps -ax -o pid=,pgid=` printed is in group `pgid`: stopping
/// is done when the tree a unit forked is gone, not when its wrapper is reaped.
pub fn group_empty(pgid: u32, table: &str) -> (r: bool)
    ensures
        r == !exists|i: int| 0 <= i < lines_of(table@).len() && in_group(#[trigger] lines_of(table@)[i], pgid),
{
    let ls = lines(table);
    let ghost lv = ls@.map_values(|l: Vec<char>| l@);
    let mut i: usize = 0;
    while i < ls.len()
        invariant
            i <= ls@.len(),
            lv == ls@.map_values(|l: Vec<char>| l@),
            lv == lines_of(table@),
            forall|j: int| 0 <= j < i ==> !in_group(#[trigger] lv[j], pgid),
        decreases ls.len() - i,
    {
        let line = crate::text::string_of(ls[i].as_slice());
        assert(line@ == lv[i as int]);
        let columns = crate::text::split_whitespace(line.as_str());
        if columns.len() >= 2 {
            let second = chars_of(columns[1].as_str());
            assert(second@.subrange(0, second@.len() as int) =~= second@);
            match parse_unsigned(&second, 0, second.len(), 0xffff_ffff) {
                Some(group) => {
                    if group == pgid as u64 {
                        assert(in_group(lv[i as int], pgid));
                        return false;
                    }
                },
                None => {},
            }
        }
        i += 1;
    }
    true
}

} // verus!

//! Which mode an invocation is: the popup, the daemon, one of the two panes, or an agent-facing
//! read or verb.

use vstd::prelude::*;

use crate::cli::{Act, Ask};
use crate::text::str_eq;

verus! {

pub const USAGE: &'static str = "usage: herdr-dev [daemon [--state-root <dir>]|tail|attach]
       herdr-dev status [--project <dir>]
       herdr-dev start|stop|restart [--project <dir>] <unit>...";

#[derive(Debug, Clone, PartialEq, Eq)]
pub enum Mode {
    Tui,
    Daemon { root: String },
    Tail,
    Attach,
    Status { ask: Ask },
    Control { act: Act, ask: Ask, units: Vec<String> },
}

#[derive(Debug, Clone, PartialEq, Eq)]
pub enum ModeError {
    UnknownMode(String),
    UnexpectedArgument(String),
    MissingValue(String),
    MissingUnit(String),
}

/// An `Ask` as its two optional directories.
pub type AskView = (Option<Seq<char>>, Option<Seq<char>>);

pub open spec fn opt_view(o: Option<String>) -> Option<Seq<char>> {
    match o {
        Some(s) => Some(s@),
        None => None,
    }
}

pub open spec fn ask_view(a: Ask) -> AskView {
    (opt_view(a.project), opt_view(a.state))
}

/// A mode as plain values.
pub enum ModeView {
    Tui,
    Daemon(Seq<char>),
    Tail,
    Attach,
    Status(AskView),
    Control(Act, AskView, Seq<Seq<char>>),
}

/// A refusal as plain values.
pub enum ModeErrorView {
    UnknownMode(Seq<char>),
    UnexpectedArgument(Seq<char>),
    MissingValue(Seq<char>),
    MissingUnit(Seq<char>),
}

pub open spec fn strings_view(v: Seq<String>) -> Seq<Seq<char>> {
    v.map_values(|s: String| s@)
}

impl Mode {
    pub open spec fn view_spec(self) -> ModeView {
        match self {
            Mode::Tui => ModeView::Tui,
            Mode::Daemon { root } => ModeView::Daemon(root@),
            Mode::Tail => ModeView::Tail,
            Mode::Attach => ModeView::Attach,
            Mode::Status { ask } => ModeView::Status(ask_view(ask)),
            Mode::Control { act, ask, units } => ModeView::Control(
                act,
                ask_view(ask),
                strings_view(units@),
            ),
        }
    }
}

impl ModeError {
    pub open spec fn view_spec(self) -> ModeErrorView {
        match self {
            ModeError::UnknownMode(s) => ModeErrorView::UnknownMode(s@),
            ModeError::UnexpectedArgument(s) => ModeErrorView::UnexpectedArgument(s@),
            ModeError::MissingValue(s) => ModeErrorView::MissingValue(s@),
            ModeError::MissingUnit(s) => ModeErrorView::MissingUnit(s@),
        }
    }

    /// The sentence a refusal is said in.
    pub open spec fn message_spec(self) -> Seq<char> {
        match self {
            ModeError::UnknownMode(arg) => "unknown mode `"@ + arg@ + "`"@,
            ModeError::UnexpectedArgument(arg) => "unexpected argument `"@ + arg@ + "`"@,
            ModeError::MissingValue(flag) => "`"@ + flag@ + "` needs a directory"@,
            ModeError::MissingUnit(verb) => "`"@ + verb@ + "` needs a unit to act on"@,
        }
    }

    pub fn message(&self) -> (r: String)
        ensures
            r@ == self.message_spec(),
    {
        let (before, what, after) = match self {
            ModeError::UnknownMode(arg) => ("unknown mode `", arg, "`"),
            ModeError::UnexpectedArgument(arg) => ("unexpected argument `", arg, "`"),
            ModeError::MissingValue(flag) => ("`", flag, "` needs a directory"),
            ModeError::MissingUnit(verb) => ("`", verb, "` needs a unit to act on"),
        };
        let mut r = String::from_str(before);
        r.append(what.as_str());
        r.append(after);
        r
    }
}

/// The flags an agent-facing mode takes from position `i` on: `--project` and `--state-root`,
/// each with the directory after it, in any order. The first word that is neither ends the scan.
pub open spec fn options_spec(args: Seq<Seq<char>>, i: int, ask: AskView) -> Result<
    (AskView, int),
    ModeErrorView,
>
    decreases args.len() - i,
{
    if 0 <= i < args.len() && (args[i] == "--project"@ || args[i] == "--state-root"@) {
        if i + 1 < args.len() {
            let next = if args[i] == "--project"@ {
                (Some(args[i + 1]), ask.1)
            } else {
                (ask.0, Some(args[i + 1]))
            };
            options_spec(args, i + 2, next)
        } else {
            Err(ModeErrorView::MissingValue(args[i]))
        }
    } else {
        Ok((ask, i))
    }
}

/// A mode that takes nothing after position `i`, or the first word that is extra.
pub open spec fn nothing_after(args: Seq<Seq<char>>, i: int, mode: ModeView) -> Result<
    ModeView,
    ModeErrorView,
> {
    if i < args.len() {
        Err(ModeErrorView::UnexpectedArgument(args[i]))
    } else {
        Ok(mode)
    }
}

/// What an argument list (without argv[0]) asks for, with `default_root` the state root a daemon
/// serves when none is named.
pub open spec fn mode_spec(args: Seq<Seq<char>>, default_root: Seq<char>) -> Result<
    ModeView,
    ModeErrorView,
> {
    if args.len() == 0 {
        Ok(ModeView::Tui)
    } else {
        let first = args[0];
        if first == "daemon"@ {
            if args.len() == 1 {
                Ok(ModeView::Daemon(default_root))
            } else if args[1] == "--state-root"@ {
                if args.len() >= 3 {
                    nothing_after(args, 3, ModeView::Daemon(args[2]))
                } else {
                    Err(ModeErrorView::MissingValue("--state-root"@))
                }
            } else {
                Err(ModeErrorView::UnexpectedArgument(args[1]))
            }
        } else if first == "tail"@ {
            nothing_after(args, 1, ModeView::Tail)
        } else if first == "attach"@ {
            nothing_after(args, 1, ModeView::Attach)
        } else if first == "status"@ {
            match options_spec(args, 1, (None, None)) {
                Err(e) => Err(e),
                Ok((ask, j)) => nothing_after(args, j, ModeView::Status(ask)),
            }
        } else if first == "start"@ || first == "stop"@ || first == "restart"@ {
            let act = if first == "start"@ {
                Act::Start
            } else if first == "stop"@ {
                Act::Stop
            } else {
                Act::Restart
            };
            match options_spec(args, 1, (None, None)) {
                Err(e) => Err(e),
                Ok((ask, j)) => if j < args.len() {
                    Ok(ModeView::Control(act, ask, args.skip(j)))
                } else {
                    Err(ModeErrorView::MissingUnit(first))
                },
            }
        } else {
            Err(ModeErrorView::UnknownMode(first))
        }
    }
}

/// Each flag fills its own slot: the directory after `--state-root` is the state root and the one
/// after `--project` the project, in either order, whatever directories they name; and a verb's
/// units start after its flags.
pub proof fn law_each_flag_fills_its_own_slot(root: Seq<char>, project: Seq<char>, state: Seq<char>, unit: Seq<char>)
    ensures
        mode_spec(seq!["status"@, "--state-root"@, state], root) == Ok::<ModeView, ModeErrorView>(
            ModeView::Status((None, Some(state))),
        ),
        mode_spec(seq!["status"@, "--project"@, project], root) == Ok::<ModeView, ModeErrorView>(
            ModeView::Status((Some(project), None)),
        ),
        mode_spec(seq!["status"@, "--project"@, project, "--state-root"@, state], root) == Ok::<ModeView, ModeErrorView>(
            ModeView::Status((Some(project), Some(state))),
        ),
        mode_spec(seq!["status"@, "--state-root"@, state, "--project"@, project], root) == Ok::<ModeView, ModeErrorView>(
            ModeView::Status((Some(project), Some(state))),
        ),
        unit != "--project"@ && unit != "--state-root"@ ==> mode_spec(seq!["stop"@, "--state-root"@, state, unit], root)
            == Ok::<ModeView, ModeErrorView>(ModeView::Control(Act::Stop, (None, Some(state)), seq![unit])),
        unit != "--project"@ && unit != "--state-root"@ ==> mode_spec(seq!["start"@, "--project"@, project, unit], root)
            == Ok::<ModeView, ModeErrorView>(ModeView::Control(Act::Start, (Some(project), None), seq![unit])),
        unit != "--project"@ && unit != "--state-root"@ ==> mode_spec(seq!["restart"@, unit], root)
            == Ok::<ModeView, ModeErrorView>(ModeView::Control(Act::Restart, (None, None), seq![unit])),
        mode_spec(seq!["daemon"@], root) == Ok::<ModeView, ModeErrorView>(ModeView::Daemon(root)),
        mode_spec(seq!["daemon"@, "--state-root"@, state], root) == Ok::<ModeView, ModeErrorView>(ModeView::Daemon(state)),
{
    reveal_strlit("status");
    reveal_strlit("stop");
    reveal_strlit("start");
    reveal_strlit("restart");
    reveal_strlit("daemon");
    reveal_strlit("tail");
    reveal_strlit("attach");
    reveal_strlit("--project");
    reveal_strlit("--state-root");
    assert("--project"@ != "--state-root"@) by {
        assert("--project"@[2] != "--state-root"@[2]);
    }
    assert("status"@ != "daemon"@ && "status"@ != "tail"@ && "status"@ != "attach"@) by {
        assert("status"@[0] != "daemon"@[0] && "status"@.len() != "tail"@.len() && "status"@[0] != "attach"@[0]);
    }
    assert("stop"@ != "daemon"@ && "stop"@ != "tail"@ && "stop"@ != "attach"@ && "stop"@ != "status"@ && "stop"@ != "start"@) by {
        assert("stop"@[0] != "daemon"@[0] && "stop"@[1] != "tail"@[1] && "stop"@[0] != "attach"@[0]);
        assert("stop"@.len() != "status"@.len() && "stop"@.len() != "start"@.len());
    }
    reveal_with_fuel(options_spec, 4);
    let a1 = seq!["status"@, "--state-root"@, state];
    assert(options_spec(a1, 3, (None, Some(state))) == Ok::<(AskView, int), ModeErrorView>(((None, Some(state)), 3)));
    let a2 = seq!["status"@, "--project"@, project];
    assert(options_spec(a2, 3, (Some(project), None)) == Ok::<(AskView, int), ModeErrorView>(((Some(project), None), 3)));
    let a3 = seq!["status"@, "--project"@, project, "--state-root"@, state];
    assert(options_spec(a3, 5, (Some(project), Some(state))) == Ok::<(AskView, int), ModeErrorView>(((Some(project), Some(state)), 5)));
    let a4 = seq!["status"@, "--state-root"@, state, "--project"@, project];
    assert(options_spec(a4, 5, (Some(project), Some(state))) == Ok::<(AskView, int), ModeErrorView>(((Some(project), Some(state)), 5)));
    let a5 = seq!["stop"@, "--state-root"@, state, unit];
    let a6 = seq!["start"@, "--project"@, project, unit];
    let a7 = seq!["restart"@, unit];
    assert("start"@ != "daemon"@ && "start"@ != "tail"@ && "start"@ != "attach"@ && "start"@ != "status"@) by {
        assert("start"@[0] != "daemon"@[0] && "start"@[1] != "tail"@[1] && "start"@[0] != "attach"@[0]);
        assert("start"@.len() != "status"@.len());
    }
    assert("restart"@ != "daemon"@ && "restart"@ != "tail"@ && "restart"@ != "attach"@ && "restart"@ != "status"@
        && "restart"@ != "start"@ && "restart"@ != "stop"@) by {
        assert("restart"@[0] != "daemon"@[0] && "restart"@[0] != "tail"@[0] && "restart"@[0] != "attach"@[0]);
        assert("restart"@[0] != "status"@[0] && "restart"@[0] != "start"@[0] && "restart"@[0] != "stop"@[0]);
    }
    if unit != "--project"@ && unit != "--state-root"@ {
        assert(options_spec(a5, 3, (None, Some(state))) == Ok::<(AskView, int), ModeErrorView>(((None, Some(state)), 3)));
        assert(a5.skip(3) =~= seq![unit]);
        assert(options_spec(a6, 3, (Some(project), None)) == Ok::<(AskView, int), ModeErrorView>(((Some(project), None), 3)));
        assert(a6.skip(3) =~= seq![unit]);
        assert(options_spec(a7, 1, (None, None)) == Ok::<(AskView, int), ModeErrorView>(((None, None), 1)));
        assert(a7.skip(1) =~= seq![unit]);
    }
    let a8 = seq!["daemon"@, "--state-root"@, state];
    assert(a8[1] == "--state-root"@);
}

pub open spec fn result_view(r: Result<Mode, ModeError>) -> Result<ModeView, ModeErrorView> {
    match r {
        Ok(m) => Ok(m.view_spec()),
        Err(e) => Err(e.view_spec()),
    }
}

/// The mode `args` (argv without argv[0]) asks for; a daemon with no root named serves
/// `default_root`.
pub fn from_args(args: &Vec<String>, default_root: &str) -> (r: Result<Mode, ModeError>)
    ensures
        result_view(r) == mode_spec(strings_view(args@), default_root@),
{
    let ghost a = strings_view(args@);
    let n = args.len();
    if n == 0 {
        return Ok(Mode::Tui);
    }
    let first = args[0].as_str();
    assert(a[0] == first@);
    if str_eq(first, "daemon") {
        if n == 1 {
            return Ok(Mode::Daemon { root: String::from_str(default_root) });
        }
        assert(a[1] == args@[1]@);
        if str_eq(args[1].as_str(), "--state-root") {
            if n >= 3 {
                assert(a[2] == args@[2]@);
                if n > 3 {
                    assert(a[3] == args@[3]@);
                    return Err(ModeError::UnexpectedArgument(args[3].clone()));
                }
                return Ok(Mode::Daemon { root: args[2].clone() });
            }
            return Err(ModeError::MissingValue(String::from_str("--state-root")));
        }
        return Err(ModeError::UnexpectedArgument(args[1].clone()));
    }
    if str_eq(first, "tail") || str_eq(first, "attach") {
        let mode = if str_eq(first, "tail") {
            Mode::Tail
        } else {
            Mode::Attach
        };
        if n > 1 {
            assert(a[1] == args@[1]@);
            return Err(ModeError::UnexpectedArgument(args[1].clone()));
        }
        return Ok(mode);
    }
    let is_status = str_eq(first, "status");
    let is_verb = str_eq(first, "start") || str_eq(first, "stop") || str_eq(first, "restart");
    if !is_status && !is_verb {
        return Err(ModeError::UnknownMode(args[0].clone()));
    }
    let (ask, j) = match options(args, 1) {
        Err(e) => {
            return Err(e);
        },
        Ok(found) => found,
    };
    if is_status {
        if j < n {
            assert(a[j as int] == args@[j as int]@);
            return Err(ModeError::UnexpectedArgument(args[j].clone()));
        }
        return Ok(Mode::Status { ask });
    }
    let act = if str_eq(first, "start") {
        Act::Start
    } else if str_eq(first, "stop") {
        Act::Stop
    } else {
        Act::Restart
    };
    if j == n {
        return Err(ModeError::MissingUnit(args[0].clone()));
    }
    let mut units: Vec<String> = Vec::new();
    let mut k = j;
    while k < n
        invariant
            j <= k <= n,
            n == args@.len(),
            a == strings_view(args@),
            strings_view(units@) == a.subrange(j as int, k as int),
        decreases n - k,
    {
        let ghost before = units@;
        let next = args[k].clone();
        assert(next@ == a[k as int]);
        units.push(next);
        assert(units@ == before.push(next));
        assert(strings_view(units@) =~= strings_view(before).push(next@));
        assert(strings_view(units@) =~= a.subrange(j as int, k as int + 1));
        k += 1;
    }
    assert(a.subrange(j as int, n as int) =~= a.skip(j as int));
    Ok(Mode::Control { act, ask, units })
}

/// The flags from position `i` on.
fn options(args: &Vec<String>, i: usize) -> (r: Result<(Ask, usize), ModeError>)
    requires
        i <= args@.len(),
    ensures
        match (r, options_spec(strings_view(args@), i as int, (None, None))) {
            (Ok((ask, j)), Ok((view, k))) => ask_view(ask) == view && j == k && j <= args@.len(),
            (Err(e), Err(view)) => e.view_spec() == view,
            _ => false,
        },
{
    let ghost a = strings_view(args@);
    let mut ask = Ask { project: None, state: None };
    let mut k = i;
    while k < args.len() && (str_eq(args[k].as_str(), "--project") || str_eq(
        args[k].as_str(),
        "--state-root",
    ))
        invariant
            i <= k <= args@.len(),
            a == strings_view(args@),
            options_spec(a, i as int, (None, None)) == options_spec(a, k as int, ask_view(ask)),
        decreases args.len() - k,
    {
        assert(a[k as int] == args@[k as int]@);
        if k + 1 >= args.len() {
            return Err(ModeError::MissingValue(args[k].clone()));
        }
        assert(a[k + 1] == args@[k + 1]@);
        let dir = args[k + 1].clone();
        if str_eq(args[k].as_str(), "--project") {
            ask.project = Some(dir);
        } else {
            ask.state = Some(dir);
        }
        k += 2;
    }
    proof {
        if k < args@.len() {
            assert(a[k as int] == args@[k as int]@);
        }
    }
    Ok((ask, k))
}

} // verus!

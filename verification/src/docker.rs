//! The docker half of the status mapping: what `compose ps --all` reports read as a row, the start
//! times `docker inspect` reports, and the words a refusal is shown in.
//!
//! Nothing here is owned. A compose service outlives the daemon, so every read goes to docker; the
//! cache only paints a row, marked stale, when docker cannot be reached at all.

use vstd::prelude::*;
use vstd::string::*;

use crate::json::{as_i64, as_str, get, get_spec, i64_spec, json_text, json_text_spec, str_spec, Json};
use crate::readable::{trim_end, trim_exec, trim_start};
use crate::store::Cache;
use crate::supervisor::Verdict;
use crate::text::{
    chars_of, copy_range, find_char, first_index, parse_i64, parse_i64_spec, pieces, push_char,
    lines, lines_of, split_chars, str_eq, string_of, views,
};
use crate::unit::{elapsed, elapsed_spec, Exit, State, Status};

verus! {

/// Spelled out because a popup inherits no `PATH` worth trusting; this is the symlink Docker
/// Desktop installs.
pub const DOCKER: &'static str = "/usr/local/bin/docker";

/// As long a reason as a note column can carry before it is more noise than help.
pub const REASON_WIDTH: usize = 60;

/// How many seconds `--wait` may hold a start. A service whose healthcheck is still inside its
/// start period would otherwise hold `up -d --wait` for minutes; a start may return with the
/// service not yet up, and `compose ps` says how it went.
pub const WAIT_SECONDS: &'static str = "10";

/// How many lines of a container's history a peek opens with.
pub const LOG_TAIL: &'static str = "500";

/// A docker command short of being run: the program, its arguments, and the directory it runs in
/// when it matters which; stdin is never the caller's.
#[derive(Debug, Clone, PartialEq, Eq)]
pub struct Invocation {
    pub program: String,
    pub args: Vec<String>,
    pub cwd: Option<String>,
}

fn words(list: &[&str]) -> (r: Vec<String>)
    ensures
        views(r@) == list@.map_values(|w: &str| w@),
{
    let mut r: Vec<String> = Vec::new();
    let mut i: usize = 0;
    while i < list.len()
        invariant
            i <= list@.len(),
            views(r@) == list@.subrange(0, i as int).map_values(|w: &str| w@),
        decreases list.len() - i,
    {
        let ghost before = r@;
        let w = String::from_str(list[i]);
        r.push(w);
        assert(views(r@) =~= views(before).push(w@));
        assert(list@.subrange(0, i as int + 1).map_values(|w: &str| w@) =~= list@.subrange(0, i as int).map_values(|w: &str| w@).push(list@[i as int]@));
        i += 1;
    }
    assert(list@.subrange(0, list@.len() as int) =~= list@);
    r
}

/// `docker compose <args>` from the project root, with default file discovery only: never `-f`,
/// since the repos hold compose files that are no part of the dev flow.
fn compose(root: &str, args: Vec<String>) -> (r: Invocation)
    ensures
        r.program@ == DOCKER@,
        views(r.args@) == seq!["compose"@] + views(args@),
        r.cwd matches Some(c) && c@ == root@,
{
    let mut all: Vec<String> = Vec::new();
    all.push(String::from_str("compose"));
    let ghost lead = views(all@);
    let mut rest = args;
    let ghost tail = views(rest@);
    all.append(&mut rest);
    assert(views(all@) =~= lead + tail);
    Invocation { program: String::from_str(DOCKER), args: all, cwd: Some(String::from_str(root)) }
}

/// What a read asks for: every container, stopped ones too, since a finished one-shot is one.
pub fn ps_command(root: &str) -> (r: Invocation)
    ensures
        r.program@ == DOCKER@,
        views(r.args@) == seq!["compose"@, "ps"@, "--all"@, "--format"@, "json"@],
        r.cwd matches Some(c) && c@ == root@,
{
    let args = words(&["ps", "--all", "--format", "json"]);
    let r = compose(root, args);
    assert(views(r.args@) =~= seq!["compose"@, "ps"@, "--all"@, "--format"@, "json"@]);
    r
}

/// A start, which is also a restart so that a changed compose file takes effect. A one-shot is
/// left out of the wait: an exit-0 service in the waited set makes `--wait` fail and give up early.
pub fn up_command(root: &str, service: &Service) -> (r: Invocation)
    ensures
        r.program@ == DOCKER@,
        views(r.args@) == if service.one_shot {
            seq!["compose"@, "up"@, "-d"@, service.name@]
        } else {
            seq!["compose"@, "up"@, "-d"@, "--wait"@, "--wait-timeout"@, WAIT_SECONDS@, service.name@]
        },
        r.cwd matches Some(c) && c@ == root@,
{
    let mut args = if service.one_shot {
        words(&["up", "-d"])
    } else {
        words(&["up", "-d", "--wait", "--wait-timeout", WAIT_SECONDS])
    };
    let ghost before = args@;
    args.push(service.name.clone());
    assert(views(args@) =~= views(before).push(service.name@));
    let r = compose(root, args);
    assert(views(r.args@) =~= if service.one_shot {
        seq!["compose"@, "up"@, "-d"@, service.name@]
    } else {
        seq!["compose"@, "up"@, "-d"@, "--wait"@, "--wait-timeout"@, WAIT_SECONDS@, service.name@]
    });
    r
}

/// One service stopped, never `down`: `down` is all-or-nothing and removes the network.
pub fn stop_command(root: &str, service: &Service) -> (r: Invocation)
    ensures
        r.program@ == DOCKER@,
        views(r.args@) == seq!["compose"@, "stop"@, service.name@],
        r.cwd matches Some(c) && c@ == root@,
{
    let mut args = words(&["stop"]);
    let ghost before = args@;
    args.push(service.name.clone());
    assert(views(args@) =~= views(before).push(service.name@));
    let r = compose(root, args);
    assert(views(r.args@) =~= seq!["compose"@, "stop"@, service.name@]);
    r
}

/// A peek of one service: streamed rather than polled, colour off at the source, and only the
/// last lines of its history to start with.
pub fn logs_command(root: &str, service: &str) -> (r: Invocation)
    ensures
        r.program@ == DOCKER@,
        views(r.args@) == seq![
            "compose"@,
            "logs"@,
            "--no-color"@,
            "--no-log-prefix"@,
            "--follow"@,
            "--tail"@,
            LOG_TAIL@,
            service@,
        ],
        r.cwd matches Some(c) && c@ == root@,
{
    let args = words(&["logs", "--no-color", "--no-log-prefix", "--follow", "--tail", LOG_TAIL, service]);
    let r = compose(root, args);
    assert(views(r.args@) =~= seq![
        "compose"@,
        "logs"@,
        "--no-color"@,
        "--no-log-prefix"@,
        "--follow"@,
        "--tail"@,
        LOG_TAIL@,
        service@,
    ]);
    r
}

/// When each named container started, one `<name> <started>` line each.
pub fn inspect_command(names: &Vec<String>) -> (r: Invocation)
    ensures
        r.program@ == DOCKER@,
        views(r.args@) == seq!["inspect"@, "--format"@, "{{.Name}} {{.State.StartedAt}}"@] + views(names@),
        r.cwd is None,
{
    let mut args = words(&["inspect", "--format", "{{.Name}} {{.State.StartedAt}}"]);
    let mut i: usize = 0;
    let ghost lead = views(args@);
    while i < names.len()
        invariant
            i <= names@.len(),
            views(args@) == lead + views(names@.subrange(0, i as int)),
        decreases names.len() - i,
    {
        let ghost before = args@;
        let n = names[i].clone();
        args.push(n);
        assert(views(args@) =~= views(before).push(n@));
        assert(views(names@.subrange(0, i as int + 1)) =~= views(names@.subrange(0, i as int)).push(names@[i as int]@));
        i += 1;
    }
    assert(names@.subrange(0, names@.len() as int) =~= names@);
    Invocation { program: String::from_str(DOCKER), args, cwd: None }
}

/// A compose service this project may act on, as the manifest declares it.
#[derive(Debug, Clone, PartialEq, Eq)]
pub struct Service {
    pub name: String,
    pub one_shot: bool,
}

/// One container as `docker compose ps --all --format json` reports it.
#[derive(Debug, Clone, PartialEq, Eq)]
pub struct Container {
    pub service: String,
    /// The container name, which is what `docker inspect` takes.
    pub name: String,
    pub state: String,
    pub health: String,
    pub exit_code: i32,
}

/// A field of a container as text: nothing there, or not a string, reads as empty.
pub open spec fn field_spec(value: Json, key: Seq<char>) -> Seq<char> {
    match str_spec(get_spec(value, key)) {
        Some(t) => t,
        None => Seq::empty(),
    }
}

fn field(value: &Json, key: &str) -> (r: String)
    ensures
        r@ == field_spec(*value, key@),
{
    match as_str(get(value, key)) {
        Some(t) => String::from_str(t),
        None => String::new(),
    }
}

/// A container as plain values: service, name, state, health, exit code.
pub type ContainerView = (Seq<char>, Seq<char>, Seq<char>, Seq<char>, i32);

pub open spec fn container_view(c: Container) -> ContainerView {
    (c.service@, c.name@, c.state@, c.health@, c.exit_code)
}

/// One object of compose's output read as a container: one without a service is not one. The
/// `State`, `Health` and `ExitCode` fields are what is read; the prose `Status` never is.
pub open spec fn container_spec(value: Json) -> Option<ContainerView> {
    let service = field_spec(value, "Service"@);
    if service.len() == 0 {
        None
    } else {
        Some(
            (
                service,
                field_spec(value, "Name"@),
                field_spec(value, "State"@),
                field_spec(value, "Health"@),
                match i64_spec(get_spec(value, "ExitCode"@)) {
                    Some(code) => code as i32,
                    None => 0,
                },
            ),
        )
    }
}

/// The containers of compose's output, parsed: one array, as older versions wrote it, or else one
/// object per line; anything that is not a container is passed over.
pub open spec fn containers_spec(whole: Option<Json>, lines: Seq<Option<Json>>) -> Seq<ContainerView> {
    match whole {
        Some(Json::Array(items)) => items@.filter(|j: Json| container_spec(j) is Some).map_values(|j: Json| container_spec(j)->0),
        _ => lines.filter(|l: Option<Json>| l is Some && container_spec(l->0) is Some).map_values(
            |l: Option<Json>| container_spec(l->0)->0,
        ),
    }
}

/// A JSON reading, when there is one.
pub open spec fn json_ok(r: Result<Json, Seq<char>>) -> Option<Json> {
    match r {
        Ok(j) => Some(j),
        Err(_) => None,
    }
}

/// The containers `compose ps` printed, read whole and line by line as `serde_json` reads them.
pub open spec fn containers_of_text(text: Seq<char>) -> Seq<ContainerView> {
    containers_spec(
        json_ok(json_text_spec(text)),
        lines_of(text).map_values(|l: Seq<char>| json_ok(json_text_spec(l))),
    )
}

/// The containers `compose ps --format json` printed: a JSON array of them, or one object per
/// line, as its versions differ.
pub fn parse(text: &str) -> (r: Vec<Container>)
    ensures
        containers_view(r@) == containers_of_text(text@),
{
    let whole = match json_text(text) {
        Ok(j) => Some(j),
        Err(_) => None,
    };
    let raw = lines(text);
    let ghost want = lines_of(text@).map_values(|l: Seq<char>| json_ok(json_text_spec(l)));
    let mut parsed: Vec<Option<Json>> = Vec::new();
    let mut i: usize = 0;
    while i < raw.len()
        invariant
            i <= raw@.len(),
            raw@.map_values(|l: Vec<char>| l@) == lines_of(text@),
            want == lines_of(text@).map_values(|l: Seq<char>| json_ok(json_text_spec(l))),
            parsed@.len() == i,
            forall|j: int| 0 <= j < i ==> #[trigger] parsed@[j] == want[j],
        decreases raw.len() - i,
    {
        let line = string_of(raw[i].as_slice());
        assert(line@ == lines_of(text@)[i as int]) by {
            assert(raw@.map_values(|l: Vec<char>| l@)[i as int] == raw@[i as int]@);
        }
        let one = match json_text(line.as_str()) {
            Ok(j) => Some(j),
            Err(_) => None,
        };
        parsed.push(one);
        i += 1;
    }
    assert(parsed@ =~= want);
    from_parsed(whole, &parsed)
}

pub open spec fn containers_view(v: Seq<Container>) -> Seq<ContainerView> {
    v.map_values(|c: Container| container_view(c))
}

/// `whole` is the output parsed as a single value, `lines` each of its lines parsed on its own;
/// `None` where that did not parse.
pub fn from_parsed(whole: Option<Json>, lines: &Vec<Option<Json>>) -> (r: Vec<Container>)
    ensures
        containers_view(r@) == containers_spec(whole, lines@),
{
    let mut r: Vec<Container> = Vec::new();
    match whole {
        Some(Json::Array(items)) => {
            let ghost keep = |j: Json| container_spec(j) is Some;
            let ghost see = |j: Json| container_spec(j)->0;
            let mut i: usize = 0;
            while i < items.len()
                invariant
                    i <= items@.len(),
                    keep == (|j: Json| container_spec(j) is Some),
                    see == (|j: Json| container_spec(j)->0),
                    containers_view(r@) == items@.subrange(0, i as int).filter(keep).map_values(see),
                decreases items.len() - i,
            {
                proof {
                    items@.subrange(0, i as int).lemma_filter_push(items@[i as int], keep);
                    assert(items@.subrange(0, i as int + 1) =~= items@.subrange(0, i as int).push(items@[i as int]));
                }
                match Container::read(&items[i]) {
                    Some(c) => {
                        let ghost before = r@;
                        r.push(c);
                        assert(containers_view(r@) =~= containers_view(before).push(container_view(c)));
                        assert(items@.subrange(0, i as int + 1).filter(keep).map_values(see) =~= items@.subrange(0, i as int).filter(keep).map_values(see).push(see(items@[i as int])));
                    },
                    None => {
                        assert(items@.subrange(0, i as int + 1).filter(keep) =~= items@.subrange(0, i as int).filter(keep));
                    },
                }
                i += 1;
            }
            assert(items@.subrange(0, items@.len() as int) =~= items@);
            r
        },
        _ => {
            let ghost keep = |l: Option<Json>| l is Some && container_spec(l->0) is Some;
            let ghost see = |l: Option<Json>| container_spec(l->0)->0;
            let mut i: usize = 0;
            while i < lines.len()
                invariant
                    i <= lines@.len(),
                    keep == (|l: Option<Json>| l is Some && container_spec(l->0) is Some),
                    see == (|l: Option<Json>| container_spec(l->0)->0),
                    containers_view(r@) == lines@.subrange(0, i as int).filter(keep).map_values(see),
                decreases lines.len() - i,
            {
                proof {
                    lines@.subrange(0, i as int).lemma_filter_push(lines@[i as int], keep);
                    assert(lines@.subrange(0, i as int + 1) =~= lines@.subrange(0, i as int).push(lines@[i as int]));
                }
                let found = match &lines[i] {
                    Some(value) => Container::read(value),
                    None => None,
                };
                match found {
                    Some(c) => {
                        let ghost before = r@;
                        r.push(c);
                        assert(containers_view(r@) =~= containers_view(before).push(container_view(c)));
                        assert(lines@.subrange(0, i as int + 1).filter(keep).map_values(see) =~= lines@.subrange(0, i as int).filter(keep).map_values(see).push(see(lines@[i as int])));
                    },
                    None => {
                        assert(lines@.subrange(0, i as int + 1).filter(keep) =~= lines@.subrange(0, i as int).filter(keep));
                    },
                }
                i += 1;
            }
            assert(lines@.subrange(0, lines@.len() as int) =~= lines@);
            r
        },
    }
}

impl Container {
    /// One object of compose's output as a container, if it names a service.
    pub fn read(value: &Json) -> (r: Option<Container>)
        ensures
            match (r, container_spec(*value)) {
                (Some(c), Some(v)) => container_view(c) == v,
                (None, None) => true,
                _ => false,
            },
    {
        let service = field(value, "Service");
        if service.unicode_len() == 0 {
            return None;
        }
        let exit_code: i32 = match as_i64(get(value, "ExitCode")) {
            Some(code) => code as i32,
            None => 0,
        };
        Some(Container {
            service,
            name: field(value, "Name"),
            state: field(value, "State"),
            health: field(value, "Health"),
            exit_code,
        })
    }

    pub open spec fn running_spec(&self) -> bool {
        self.state@ == "running"@
    }

    pub fn running(&self) -> (r: bool)
        ensures
            r == self.running_spec(),
    {
        str_eq(self.state.as_str(), "running")
    }
}

pub open spec fn note_view(note: Option<String>) -> Option<Seq<char>> {
    match note {
        Some(n) => Some(n@),
        None => None,
    }
}

/// The state a container is read as.
pub open spec fn observed_state(state: Seq<char>, health: Seq<char>, one_shot: bool) -> State {
    if state == "running"@ {
        if health == "starting"@ {
            State::Starting
        } else {
            State::Up
        }
    } else if state == "exited"@ {
        if one_shot {
            State::Done
        } else {
            State::Down
        }
    } else {
        State::Down
    }
}

/// The note a container's row carries: a failing or unfamiliar healthcheck of a running one, or the
/// docker word of one that is neither running nor exited.
pub open spec fn observed_note(state: Seq<char>, health: Seq<char>) -> Option<Seq<char>> {
    if state == "running"@ {
        if health == "starting"@ || health == "healthy"@ || health == ""@ {
            None
        } else {
            Some(health)
        }
    } else if state == "exited"@ {
        None
    } else {
        Some(state)
    }
}

/// The mapping, whole. No observation yields `dead`: `compose stop` exits 137, indistinguishable
/// from a kill, so "you stopped it" and "it fell over" are one state.
pub fn observed_status(container: Option<&Container>, one_shot: bool) -> (r: Status)
    ensures
        r.uptime is None,
        r.held is None,
        match container {
            None => r == Status::bare(State::Down),
            Some(c) => {
                &&& r.state == observed_state(c.state@, c.health@, one_shot)
                &&& note_view(r.note) == observed_note(c.state@, c.health@)
                &&& r.exit == if c.state@ == "exited"@ {
                    Some(Exit::Code(c.exit_code))
                } else {
                    None
                }
            },
        },
{
    proof {
        reveal_strlit("running");
        reveal_strlit("exited");
        reveal_strlit("starting");
        reveal_strlit("healthy");
        reveal_strlit("");
        assert("running"@[0] != "exited"@[0]);
    }
    let found = match container {
        None => {
            return Status::of(State::Down);
        },
        Some(c) => c,
    };
    let mut status = Status::of(State::Down);
    let state = found.state.as_str();
    let health = found.health.as_str();
    if str_eq(state, "running") {
        if str_eq(health, "starting") {
            status.state = State::Starting;
        } else {
            status.state = State::Up;
            if !(str_eq(health, "healthy") || str_eq(health, "")) {
                status.note = Some(found.health.clone());
            }
        }
    } else if str_eq(state, "exited") {
        status.state = if one_shot {
            State::Done
        } else {
            State::Down
        };
        status.exit = Some(Exit::Code(found.exit_code));
    } else {
        status.note = Some(found.state.clone());
    }
    status
}

/// A reason cut to the note column: its first sixty characters and an ellipsis when it is longer.
pub open spec fn clipped(reason: Seq<char>) -> Seq<char> {
    if reason.len() <= 60 {
        reason
    } else {
        reason.take(60).push('…')
    }
}

pub fn clip(reason: &str) -> (r: String)
    ensures
        r@ == clipped(reason@),
{
    let n = reason.unicode_len();
    if n <= REASON_WIDTH {
        String::from_str(reason)
    } else {
        let mut r = String::from_str(reason.substring_char(0, REASON_WIDTH));
        push_char(&mut r, '…');
        assert(r@ =~= reason@.take(60).push('…'));
        r
    }
}

/// The cache read back as the observation it was written from, so one mapping serves both.
pub fn remembered(cache: &Cache) -> (r: Container)
    ensures
        r.service@ == Seq::<char>::empty(),
        r.name@ == Seq::<char>::empty(),
        r.state@ == cache.state@,
        r.health@ == cache.health@,
        r.exit_code == cache.exit_code,
{
    Container {
        service: String::new(),
        name: String::new(),
        state: cache.state.clone(),
        health: cache.health.clone(),
        exit_code: cache.exit_code,
    }
}

/// The cache written for one reading taken at `now`: an absent container is recorded as nothing
/// at all, so a later stale row has nothing to be stale about.
pub fn cached(container: Option<&Container>, uptime: Option<u64>, now: u64) -> (r: Cache)
    ensures
        r.seen_at == now,
        r.uptime == uptime,
        match container {
            Some(c) => r.state@ == c.state@ && r.health@ == c.health@ && r.exit_code
                == c.exit_code,
            None => r.state@ == Seq::<char>::empty() && r.health@ == Seq::<char>::empty()
                && r.exit_code == 0,
        },
{
    match container {
        Some(c) => Cache {
            state: c.state.clone(),
            health: c.health.clone(),
            exit_code: c.exit_code,
            seen_at: now,
            uptime,
        },
        None => Cache {
            state: String::new(),
            health: String::new(),
            exit_code: 0,
            seen_at: now,
            uptime,
        },
    }
}

/// The timing a stale row repeats: the uptime it had, or else how it had ended.
pub open spec fn stale_timing(cache: Cache, one_shot: bool) -> Seq<char> {
    match cache.uptime {
        Some(u) => seq![' '] + elapsed_spec(u as nat),
        None => if cache.state@ == "exited"@ {
            seq![' '] + Exit::Code(cache.exit_code).label_spec()
        } else {
            Seq::empty()
        },
    }
}

/// The note of a row docker could not be asked about.
pub open spec fn stale_note(cache: Option<Cache>, one_shot: bool, reason: Seq<char>, now: u64) -> Seq<
    char,
> {
    match cache {
        Some(c) if c.state@.len() > 0 => "stale: "@ + observed_state(
            c.state@,
            c.health@,
            one_shot,
        ).label_spec() + stale_timing(c, one_shot) + ", seen "@ + elapsed_spec(
            (if now >= c.seen_at {
                now - c.seen_at
            } else {
                0
            }) as nat,
        ) + " ago"@,
        _ => clipped(reason),
    }
}

/// Docker could not be asked, so the row shows what was last seen and says how old it is. Never the
/// cached state in the state column: that would pretend a reading we do not have.
pub fn stale(cache: Option<&Cache>, one_shot: bool, reason: &str, now: u64) -> (r: Status)
    ensures
        r.state == State::Unknown,
        r.uptime is None,
        r.exit is None,
        r.held is None,
        note_view(r.note) == Some(
            stale_note(
                match cache {
                    Some(c) => Some(*c),
                    None => None,
                },
                one_shot,
                reason@,
                now,
            ),
        ),
{
    proof {
        reveal_strlit("stale: ");
        reveal_strlit(", seen ");
        reveal_strlit(" ago");
        reveal_strlit("exited");
    }
    let mut status = Status::of(State::Unknown);
    let usable = match cache {
        Some(c) => if c.state.unicode_len() > 0 {
            Some(c)
        } else {
            None
        },
        None => None,
    };
    let note = match usable {
        None => clip(reason),
        Some(c) => {
            let last = observed_status(Some(&remembered(c)), one_shot);
            let mut note = String::from_str("stale: ");
            note.append(last.state.label());
            match c.uptime {
                Some(u) => {
                    push_char(&mut note, ' ');
                    let e = elapsed(u);
                    note.append(e.as_str());
                },
                None => {
                    let t = last.timing();
                    if t.unicode_len() > 0 {
                        push_char(&mut note, ' ');
                        note.append(t.as_str());
                    }
                },
            }
            note.append(", seen ");
            let age = elapsed(c.age(now));
            note.append(age.as_str());
            note.append(" ago");
            proof {
                let ghost label_len = Exit::Code(c.exit_code).label_spec().len();
                assert(Exit::Code(c.exit_code).label_spec().len() >= 5);
            }
            note
        },
    };
    status.note = Some(note);
    status
}

/// The last line of `stream` with something in it, trimmed, or nothing when every line is blank.
pub open spec fn last_line(stream: Seq<char>) -> Option<Seq<char>> {
    last_line_of(pieces(stream, '\n'))
}

pub open spec fn last_line_of(lines: Seq<Seq<char>>) -> Option<Seq<char>>
    decreases lines.len(),
{
    if lines.len() == 0 {
        None
    } else if trim_end(trim_start(lines.last())).len() > 0 {
        Some(trim_end(trim_start(lines.last())))
    } else {
        last_line_of(lines.drop_last())
    }
}

fn last_line_exec(stream: &str) -> (r: Option<String>)
    ensures
        match (r, last_line(stream@)) {
            (Some(line), Some(want)) => line@ == want,
            (None, None) => true,
            _ => false,
        },
{
    let chars = chars_of(stream);
    let lines = split_chars(&chars, '\n');
    let ghost views = lines@.map_values(|p: Vec<char>| p@);
    let mut k = lines.len();
    assert(views.subrange(0, k as int) =~= views);
    while k > 0
        invariant
            k <= lines@.len(),
            views == lines@.map_values(|p: Vec<char>| p@),
            views == pieces(stream@, '\n'),
            last_line_of(views) == last_line_of(views.subrange(0, k as int)),
        decreases k,
    {
        let (start, end) = trim_exec(&lines[k - 1]);
        assert(views.subrange(0, k as int).last() == lines@[k - 1]@);
        assert(views.subrange(0, k as int).drop_last() =~= views.subrange(0, k - 1));
        if start < end {
            let line = string_of(&lines[k - 1].as_slice()[start..end]);
            return Some(line);
        }
        k -= 1;
    }
    None
}

/// What went wrong, in the words the command used: compose narrates its progress on stderr and puts
/// what went wrong last, so the last line with something in it, stderr's before stdout's, clipped.
pub open spec fn complaint_spec(stderr: Seq<char>, stdout: Seq<char>) -> Option<Seq<char>> {
    match last_line(stderr) {
        Some(line) => Some(clipped(line)),
        None => match last_line(stdout) {
            Some(line) => Some(clipped(line)),
            None => None,
        },
    }
}

pub fn complaint(stderr: &str, stdout: &str) -> (r: Option<String>)
    ensures
        match (r, complaint_spec(stderr@, stdout@)) {
            (Some(line), Some(want)) => line@ == want,
            (None, None) => true,
            _ => false,
        },
{
    match last_line_exec(stderr) {
        Some(line) => Some(clip(line.as_str())),
        None => match last_line_exec(stdout) {
            Some(line) => Some(clip(line.as_str())),
            None => None,
        },
    }
}

/// What `docker` is told for a verb on the service `name`.
pub open spec fn verb_args(name: Seq<char>, one_shot: bool, act: crate::cli::Act) -> Seq<Seq<char>> {
    if act == crate::cli::Act::Stop {
        seq!["compose"@, "stop"@, name]
    } else if one_shot {
        seq!["compose"@, "up"@, "-d"@, name]
    } else {
        seq!["compose"@, "up"@, "-d"@, "--wait"@, "--wait-timeout"@, WAIT_SECONDS@, name]
    }
}

/// A restart runs exactly what a start runs, `compose up` and never `compose restart`, so that a
/// changed compose file takes effect.
pub proof fn law_a_restart_runs_what_a_start_runs(name: Seq<char>, one_shot: bool)
    ensures
        verb_args(name, one_shot, crate::cli::Act::Restart) == verb_args(name, one_shot, crate::cli::Act::Start),
        verb_args(name, one_shot, crate::cli::Act::Restart)[1] == "up"@,
{
}

/// The command a verb on a docker unit runs: `stop` for a stop, and `up` for a start and a restart
/// alike, so that a changed compose file takes effect.
pub fn verb_command(root: &str, service: &Service, act: crate::cli::Act) -> (r: Invocation)
    ensures
        r.program@ == DOCKER@,
        r.cwd matches Some(c) && c@ == root@,
        views(r.args@) == verb_args(service.name@, service.one_shot, act),
{
    match act {
        crate::cli::Act::Stop => stop_command(root, service),
        _ => up_command(root, service),
    }
}

/// Every declared service's row when docker could not be asked: each one what was last seen of it
/// (`caches`, one per service), marked stale with `reason`, at `now`.
pub fn unread(services: &Vec<Service>, caches: &Vec<Option<Cache>>, reason: &str, now: u64) -> (r: Vec<(String, Status)>)
    requires
        caches@.len() == services@.len(),
    ensures
        r@.len() == services@.len(),
        forall|i: int| 0 <= i < r@.len() ==> {
            let (key, status) = #[trigger] r@[i];
            &&& key@ == crate::unit::key_spec("docker"@, services@[i].name@)
            &&& status.state == State::Unknown
            &&& status.uptime is None
            &&& status.exit is None
            &&& status.held is None
            &&& note_view(status.note) == Some(stale_note(caches@[i], services@[i].one_shot, reason@, now))
        },
{
    let mut r: Vec<(String, Status)> = Vec::new();
    let mut i: usize = 0;
    proof {
        reveal_strlit("docker");
    }
    while i < services.len()
        invariant
            i <= services@.len(),
            caches@.len() == services@.len(),
            r@.len() == i,
            forall|j: int| 0 <= j < i ==> {
                let (key, status) = #[trigger] r@[j];
                &&& key@ == crate::unit::key_spec("docker"@, services@[j].name@)
                &&& status.state == State::Unknown
                &&& status.uptime is None
                &&& status.exit is None
                &&& status.held is None
                &&& note_view(status.note) == Some(stale_note(caches@[j], services@[j].one_shot, reason@, now))
            },
        decreases services.len() - i,
    {
        let service = &services[i];
        let status = stale(caches[i].as_ref(), service.one_shot, reason, now);
        let key = crate::unit::key(crate::unit::DOCKER, service.name.as_str());
        r.push((key, status));
        i += 1;
    }
    r
}

/// The answer a compose command gives a verb. The exit status of `--wait` is never the source of
/// truth, so a refusal is a note on the row and `compose ps` decides the state.
pub fn answer(success: bool, stderr: &str, stdout: &str, service: &str) -> (r: Verdict)
    ensures
        success ==> r.note is None,
        !success ==> (r.note matches Some(note) && note@ == match complaint_spec(stderr@, stdout@) {
            Some(c) => c,
            None => "docker refused "@ + service@,
        }),
{
    if success {
        return Verdict::done();
    }
    match complaint(stderr, stdout) {
        Some(c) => Verdict::note(c),
        None => {
            let mut r = String::from_str("docker refused ");
            r.append(service);
            proof {
                reveal_strlit("docker refused ");
            }
            Verdict::note(r)
        },
    }
}

/// What a read of `compose ps` comes to: the containers it printed, or why docker could not tell.
/// `ran` is whether the command succeeded, or why it could not be run at all; `whole` and `lines`
/// are its output parsed as for `parse`.
pub fn ps(ran: Result<bool, String>, stderr: &str, stdout: &str) -> (r: Result<Vec<Container>, String>)
    ensures
        match ran {
            Err(e) => r matches Err(m) && m@ == DOCKER@ + ": "@ + e@,
            Ok(false) => r matches Err(m) && m@ == match complaint_spec(stderr@, stdout@) {
                Some(c) => c,
                None => "docker is not answering"@,
            },
            Ok(true) => r matches Ok(v) && containers_view(v@) == containers_of_text(stdout@),
        },
{
    match ran {
        Err(e) => {
            let mut m = String::from_str(DOCKER);
            m.append(": ");
            m.append(e.as_str());
            proof {
                reveal_strlit(": ");
            }
            Err(m)
        },
        Ok(false) => Err(ps_refusal(stderr, stdout)),
        Ok(true) => Ok(parse(stdout)),
    }
}

/// Why `compose ps` could not tell us: its complaint, or that docker is not answering.
pub fn ps_refusal(stderr: &str, stdout: &str) -> (r: String)
    ensures
        r@ == match complaint_spec(stderr@, stdout@) {
            Some(c) => c,
            None => "docker is not answering"@,
        },
{
    match complaint(stderr, stdout) {
        Some(c) => c,
        None => String::from_str("docker is not answering"),
    }
}


/// Division that rounds toward zero, as Rust's `/` on signed integers does.
pub open spec fn tdiv(a: int, b: int) -> int {
    if a >= 0 {
        a / b
    } else {
        -((-a) / b)
    }
}

/// The remainder that goes with `tdiv`, as Rust's `%` on signed integers is.
pub open spec fn trem(a: int, b: int) -> int {
    a - tdiv(a, b) * b
}

/// Hinnant's `days_from_civil`: the day number, counted from 1970-01-01, of a proleptic Gregorian
/// date.
pub open spec fn days_from_civil_spec(year: int, month: int, day: int) -> int {
    let y = if month <= 2 {
        year - 1
    } else {
        year
    };
    let era = tdiv(
        if y >= 0 {
            y
        } else {
            y - 399
        },
        400,
    );
    let year_of_era = y - era * 400;
    let shifted = trem(month + 9, 12);
    let day_of_year = tdiv(153 * shifted + 2, 5) + day - 1;
    let day_of_era = year_of_era * 365 + tdiv(year_of_era, 4) - tdiv(year_of_era, 100)
        + day_of_year;
    era * 146097 + day_of_era - 719468
}

/// A leap year of the proleptic Gregorian calendar.
pub open spec fn leap(year: int) -> bool {
    (year % 4 == 0 && year % 100 != 0) || year % 400 == 0
}

/// How many days month `month` (1 to 12) of `year` has.
pub open spec fn days_in_month(year: int, month: int) -> int {
    if month == 2 {
        if leap(year) {
            29
        } else {
            28
        }
    } else if month == 4 || month == 6 || month == 9 || month == 11 {
        30
    } else {
        31
    }
}

/// The days before March 1 of the year that starts at March 1 of `y`, counted in whole eras.
spec fn year_base(y: int) -> int {
    (y / 400) * 146097 + (y % 400) * 365 + (y % 400) / 4 - (y % 400) / 100
}

/// The days from March 1 to the first of `month`.
spec fn month_start(month: int) -> int {
    tdiv(153 * trem(month + 9, 12) + 2, 5)
}

/// The era of a year is its floor division by 400, and the year of the era what is left.
proof fn lemma_era(y: int)
    ensures
        tdiv(if y >= 0 { y } else { y - 399 }, 400) == y / 400,
        y - tdiv(if y >= 0 { y } else { y - 399 }, 400) * 400 == y % 400,
{
    let q = y / 400;
    let r = y % 400;
    vstd::arithmetic::div_mod::lemma_fundamental_div_mod(y, 400);
    assert(y == 400 * q + r);
    if y < 0 {
        assert(399 - y == (-q) * 400 + (399 - r));
        vstd::arithmetic::div_mod::lemma_fundamental_div_mod_converse(399 - y, 400, -q, 399 - r);
    }
}

/// Counting one past `x` in steps of `d` completes a step exactly when `x + 1` is a multiple.
proof fn lemma_div_step(x: int, d: int)
    requires
        d > 0,
    ensures
        (x + 1) / d - x / d == if (x + 1) % d == 0 { 1int } else { 0int },
{
    let a = x / d;
    let b = x % d;
    vstd::arithmetic::div_mod::lemma_fundamental_div_mod(x, d);
    assert(x == d * a + b);
    if b < d - 1 {
        assert(x + 1 == a * d + (b + 1)) by (nonlinear_arith)
            requires
                x == d * a + b,
        ;
        vstd::arithmetic::div_mod::lemma_fundamental_div_mod_converse(x + 1, d, a, b + 1);
    } else {
        assert(x + 1 == (a + 1) * d + 0) by (nonlinear_arith)
            requires
                x == d * a + b,
                b == d - 1,
        ;
        vstd::arithmetic::div_mod::lemma_fundamental_div_mod_converse(x + 1, d, a + 1, 0);
    }
}

/// Adding a multiple of `d` changes nothing modulo `d`.
proof fn lemma_mod_shift(k: int, z: int, d: int)
    requires
        d > 0,
    ensures
        (d * k + z) % d == z % d,
{
    let a = z / d;
    let b = z % d;
    vstd::arithmetic::div_mod::lemma_fundamental_div_mod(z, d);
    assert(d * k + z == (k + a) * d + b) by (nonlinear_arith)
        requires
            z == d * a + b,
    ;
    vstd::arithmetic::div_mod::lemma_fundamental_div_mod_converse(d * k + z, d, k + a, b);
}

/// From one March 1 to the next there are 365 days, and one more when February of the later year
/// has 29.
proof fn lemma_year_step(y: int)
    ensures
        year_base(y + 1) == year_base(y) + 365 + if leap(y + 1) { 1int } else { 0int },
{
    let q = y / 400;
    let r = y % 400;
    vstd::arithmetic::div_mod::lemma_fundamental_div_mod(y, 400);
    assert(y == 400 * q + r);
    if r < 399 {
        vstd::arithmetic::div_mod::lemma_fundamental_div_mod_converse(y + 1, 400, q, r + 1);
        lemma_div_step(r, 4);
        lemma_div_step(r, 100);
        assert(y + 1 == 4 * (100 * q) + (r + 1));
        lemma_mod_shift(100 * q, r + 1, 4);
        assert(y + 1 == 100 * (4 * q) + (r + 1));
        lemma_mod_shift(4 * q, r + 1, 100);
        if (r + 1) % 100 == 0 {
            let k = (r + 1) / 100;
            vstd::arithmetic::div_mod::lemma_fundamental_div_mod(r + 1, 100);
            assert(r + 1 == (25 * k) * 4 + 0);
            vstd::arithmetic::div_mod::lemma_fundamental_div_mod_converse(r + 1, 4, 25 * k, 0);
        }
    } else {
        assert(y + 1 == (q + 1) * 400 + 0);
        vstd::arithmetic::div_mod::lemma_fundamental_div_mod_converse(y + 1, 400, q + 1, 0);
        assert((q + 1) * 146097 == q * 146097 + 146097);
    }
}

/// A date's day number, taken apart: the year it counts from March 1, and the days since.
proof fn lemma_days_split(year: int, month: int, day: int)
    requires
        1 <= month <= 12,
    ensures
        days_from_civil_spec(year, month, day) == year_base(if month <= 2 { year - 1 } else { year })
            + month_start(month) + day - 1 - 719468,
{
    let y = if month <= 2 {
        year - 1
    } else {
        year
    };
    lemma_era(y);
    let yoe = y % 400;
    assert(0 <= yoe < 400);
    assert(tdiv(yoe, 4) == yoe / 4);
    assert(tdiv(yoe, 100) == yoe / 100);
}

/// The day number counts real calendar days: 1970-01-01 is day 0, the next day is always one
/// more, the first of a month is as many days after the first of the month before as that month
/// has (28 or 29 for February, by the leap-year rule), and January 1 follows December 1 by 31.
pub proof fn law_days_count_the_calendar(year: int, month: int, day: int)
    requires
        1 <= month <= 12,
    ensures
        days_from_civil_spec(1970, 1, 1) == 0,
        days_from_civil_spec(year, month, day + 1) == days_from_civil_spec(year, month, day) + 1,
        month < 12 ==> days_from_civil_spec(year, month + 1, 1) == days_from_civil_spec(year, month, 1)
            + days_in_month(year, month),
        month == 12 ==> days_from_civil_spec(year + 1, 1, 1) == days_from_civil_spec(year, 12, 1) + 31,
{
    lemma_days_split(1970, 1, 1);
    assert(1969int / 400 == 4 && 1969int % 400 == 369);
    lemma_days_split(year, month, day);
    lemma_days_split(year, month, day + 1);
    lemma_days_split(year, month, 1);
    if month < 12 {
        lemma_days_split(year, month + 1, 1);
        if month == 2 {
            lemma_year_step(year - 1);
        }
    } else {
        lemma_days_split(year + 1, 1, 1);
    }
}

fn tdiv_exec(a: i128, b: i128) -> (r: i128)
    requires
        b > 0,
        -0x1_0000_0000_0000_0000_0000 <= a <= 0x1_0000_0000_0000_0000_0000,
    ensures
        r == tdiv(a as int, b as int),
{
    if a >= 0 {
        a / b
    } else {
        let m = -a;
        -(m / b)
    }
}

proof fn lemma_year_of_era(y: int)
    ensures
        0 <= y - tdiv(
            if y >= 0 {
                y
            } else {
                y - 399
            },
            400,
        ) * 400 < 400,
{
    if y >= 0 {
        assert(y - (y / 400) * 400 == y % 400) by (nonlinear_arith);
    } else {
        let m = 399 - y;
        assert(m > 0);
        assert(m == 400 * (m / 400) + m % 400) by (nonlinear_arith)
            requires
                m > 0,
        ;
        assert(0 <= m % 400 < 400) by (nonlinear_arith)
            requires
                m > 0,
        ;
    }
}

/// The day number of a date, counted from 1970-01-01.
pub fn days_from_civil(year: i64, month: i64, day: i64) -> (r: i128)
    ensures
        r == days_from_civil_spec(year as int, month as int, day as int),
        -0x100_0000_0000_0000_0000_0000 <= r <= 0x100_0000_0000_0000_0000_0000,
{
    let y: i128 = if month <= 2 {
        year as i128 - 1
    } else {
        year as i128
    };
    let era = tdiv_exec(
        if y >= 0 {
            y
        } else {
            y - 399
        },
        400,
    );
    proof {
        lemma_year_of_era(y as int);
        assert(-0x1_0000_0000_0000_0000 <= era <= 0x1_0000_0000_0000_0000) by {
            if y >= 0 {
                assert(era == y / 400);
            } else {
                assert(era == -((399 - y) / 400));
            }
        }
    }
    let year_of_era = y - era * 400;
    let shifted = (month as i128 + 9) - tdiv_exec(month as i128 + 9, 12) * 12;
    assert(-12 < shifted < 12) by {
        let a = month as int + 9;
        if a >= 0 {
            assert(a - (a / 12) * 12 == a % 12) by (nonlinear_arith);
        } else {
            let m = -a;
            assert(m - (m / 12) * 12 == m % 12) by (nonlinear_arith);
        }
    }
    let day_of_year = tdiv_exec(153 * shifted + 2, 5) + day as i128 - 1;
    let day_of_era = year_of_era * 365 + tdiv_exec(year_of_era, 4) - tdiv_exec(year_of_era, 100)
        + day_of_year;
    assert(-0x1_0000_0000_0000_0000 * 146097 <= era * 146097 <= 0x1_0000_0000_0000_0000 * 146097)
        by (nonlinear_arith)
        requires
            -0x1_0000_0000_0000_0000 <= era <= 0x1_0000_0000_0000_0000,
    ;
    era * 146097 + day_of_era - 719468
}

/// The three pieces a timestamp's date or clock is read from, when it has that many.
pub open spec fn three(s: Seq<char>, sep: char) -> Option<(Option<int>, Option<int>, Option<int>)> {
    let p = pieces(s, sep);
    if p.len() >= 3 {
        Some((parse_i64_spec(p[0]), parse_i64_spec(p[1]), parse_i64_spec(p[2])))
    } else {
        None
    }
}

/// The seconds since the epoch an RFC 3339 UTC timestamp from `docker inspect` names, such as
/// `2026-08-18T21:17:44.678150491Z`: the fraction is dropped, and anything not in this shape, or
/// before the epoch, or too late to count in an `i64`, names nothing.
pub open spec fn instant_spec(text: Seq<char>) -> Option<int> {
    if text.len() == 0 || text.last() != 'Z' {
        None
    } else {
        let body = text.drop_last();
        match first_index(body, 'T') {
            None => None,
            Some(t) => {
                let date = body.take(t);
                let after = body.skip(t + 1);
                let clock = match first_index(after, '.') {
                    Some(d) => after.take(d),
                    None => after,
                };
                match (three(date, '-'), three(clock, ':')) {
                    (
                        Some((Some(year), Some(month), Some(day))),
                        Some((Some(hour), Some(minute), Some(second))),
                    ) => {
                        let seconds = days_from_civil_spec(year, month, day) * 86400 + hour * 3600
                            + minute * 60 + second;
                        if 0 <= seconds <= i64::MAX {
                            Some(seconds)
                        } else {
                            None
                        }
                    },
                    _ => None,
                }
            },
        }
    }
}

fn three_exec(s: &Vec<char>, sep: char) -> (r: Option<(Option<i64>, Option<i64>, Option<i64>)>)
    ensures
        match (r, three(s@, sep)) {
            (None, None) => true,
            (Some((a, b, c)), Some((x, y, z))) => {
                &&& (a matches Some(v) ==> x == Some(v as int))
                &&& (a is None ==> x is None)
                &&& (b matches Some(v) ==> y == Some(v as int))
                &&& (b is None ==> y is None)
                &&& (c matches Some(v) ==> z == Some(v as int))
                &&& (c is None ==> z is None)
            },
            _ => false,
        },
{
    let p = split_chars(s, sep);
    if p.len() < 3 {
        return None;
    }
    assert(p@[0]@ == pieces(s@, sep)[0]);
    assert(p@[1]@ == pieces(s@, sep)[1]);
    assert(p@[2]@ == pieces(s@, sep)[2]);
    Some((parse_i64(&p[0]), parse_i64(&p[1]), parse_i64(&p[2])))
}

/// The seconds since the epoch `text` names, when it is a timestamp in the shape `docker inspect`
/// reports.
pub fn instant(text: &str) -> (r: Option<u64>)
    ensures
        match instant_spec(text@) {
            Some(v) => r == Some(v as u64),
            None => r is None,
        },
{
    let chars = chars_of(text);
    let n = chars.len();
    if n == 0 || chars[n - 1] != 'Z' {
        return None;
    }
    let ghost body = text@.drop_last();
    assert(body =~= chars@.subrange(0, n - 1));
    let t = match find_char(&chars, 0, n - 1, 'T') {
        None => {
            proof {
                crate::text::lemma_first_index(body, 'T', body.len() as int);
            }
            return None;
        },
        Some(t) => t,
    };
    proof {
        crate::text::lemma_first_index(body, 'T', t as int);
    }
    let ghost after = body.skip(t + 1);
    assert(after =~= chars@.subrange(t + 1, n - 1));
    let clock_end = match find_char(&chars, t + 1, n - 1, '.') {
        None => {
            proof {
                assert forall|j: int| 0 <= j < after.len() implies after[j] != '.' by {
                    assert(after[j] == chars@[t + 1 + j]);
                }
                crate::text::lemma_first_index(after, '.', after.len() as int);
            }
            n - 1
        },
        Some(d) => {
            proof {
                assert forall|j: int| 0 <= j < d - (t + 1) implies after[j] != '.' by {
                    assert(after[j] == chars@[t + 1 + j]);
                }
                assert(after[d - (t + 1)] == chars@[d as int]);
                crate::text::lemma_first_index(after, '.', d - (t + 1));
            }
            d
        },
    };
    let date = copy_range(&chars, 0, t);
    let clock = copy_range(&chars, t + 1, clock_end);
    assert(date@ =~= body.take(t as int));
    assert(clock@ =~= (match first_index(after, '.') {
        Some(d) => after.take(d),
        None => after,
    }));
    let d = three_exec(&date, '-');
    let c = three_exec(&clock, ':');
    match (d, c) {
        (Some((Some(year), Some(month), Some(day))), Some((Some(hour), Some(minute), Some(second)))) => {
            let days = days_from_civil(year, month, day);
            let seconds = days * 86400 + hour as i128 * 3600 + minute as i128 * 60 + second as i128;
            if 0 <= seconds && seconds <= 9223372036854775807 {
                Some(seconds as u64)
            } else {
                None
            }
        },
        _ => None,
    }
}



/// A name with the slashes `docker inspect` puts before it taken off.
pub open spec fn without_slashes(s: Seq<char>) -> Seq<char>
    decreases s.len(),
{
    if s.len() > 0 && s[0] == '/' {
        without_slashes(s.drop_first())
    } else {
        s
    }
}

/// One line of `docker inspect --format '{{.Name}} {{.State.StartedAt}}'`: the container's name and
/// when it started, when the line reads as both.
pub open spec fn started_entry(line: Seq<char>) -> Option<(Seq<char>, int)> {
    let t = trim_end(trim_start(line));
    match first_index(t, ' ') {
        None => None,
        Some(i) => match instant_spec(trim_end(trim_start(t.skip(i + 1)))) {
            Some(v) => Some((without_slashes(t.take(i)), v)),
            None => None,
        },
    }
}

pub open spec fn started_entries(lines: Seq<Seq<char>>) -> Seq<(Seq<char>, int)>
    decreases lines.len(),
{
    if lines.len() == 0 {
        Seq::empty()
    } else {
        started_entries(lines.drop_last()) + match started_entry(lines.last()) {
            Some(e) => seq![e],
            None => Seq::empty(),
        }
    }
}

pub open spec fn started_view(v: Seq<(String, u64)>) -> Seq<(Seq<char>, int)> {
    v.map_values(|e: (String, u64)| (e.0@, e.1 as int))
}

fn started_line(line: &Vec<char>) -> (r: Option<(String, u64)>)
    ensures
        match (r, started_entry(line@)) {
            (Some((name, at)), Some((want, when))) => name@ == want && at as int == when,
            (None, None) => true,
            _ => false,
        },
{
    let (start, end) = trim_exec(line);
    let t = copy_range(line, start, end);
    let ghost tv = trim_end(trim_start(line@));
    assert(t@ == tv);
    let space = match find_char(&t, 0, t.len(), ' ') {
        None => {
            proof {
                crate::text::lemma_first_index(tv, ' ', tv.len() as int);
            }
            return None;
        },
        Some(i) => i,
    };
    proof {
        crate::text::lemma_first_index(tv, ' ', space as int);
    }
    let rest = copy_range(&t, space + 1, t.len());
    assert(rest@ =~= tv.skip(space + 1));
    let (a, b) = trim_exec(&rest);
    let stamp = string_of(&rest.as_slice()[a..b]);
    let when = match instant(stamp.as_str()) {
        None => {
            return None;
        },
        Some(w) => w,
    };
    let mut k: usize = 0;
    while k < space && t[k] == '/'
        invariant
            k <= space < t@.len(),
            without_slashes(t@.take(space as int)) == without_slashes(t@.subrange(k as int, space as int)),
        decreases space - k,
    {
        assert(t@.subrange(k as int, space as int).drop_first() =~= t@.subrange(k + 1, space as int));
        k += 1;
    }
    assert(t@.subrange(k as int, space as int) == without_slashes(t@.subrange(k as int, space as int))) by {
        if k < space {
            assert(t@.subrange(k as int, space as int)[0] == t@[k as int]);
        }
    }
    let name = string_of(&t.as_slice()[k..space]);
    Some((name, when))
}

/// The start time of every container `docker inspect` reported, in the order it reported them.
pub fn parse_started(text: &str) -> (r: Vec<(String, u64)>)
    ensures
        started_view(r@) == started_entries(pieces(text@, '\n')),
{
    let chars = chars_of(text);
    let lines = split_chars(&chars, '\n');
    let ghost views = lines@.map_values(|p: Vec<char>| p@);
    let mut r: Vec<(String, u64)> = Vec::new();
    let mut i: usize = 0;
    while i < lines.len()
        invariant
            i <= lines@.len(),
            views == lines@.map_values(|p: Vec<char>| p@),
            started_view(r@) == started_entries(views.subrange(0, i as int)),
        decreases lines.len() - i,
    {
        let ghost before = r@;
        assert(views.subrange(0, i as int + 1).drop_last() =~= views.subrange(0, i as int));
        assert(views.subrange(0, i as int + 1).last() == lines@[i as int]@);
        match started_line(&lines[i]) {
            Some(e) => {
                r.push(e);
                assert(started_view(r@) =~= started_view(before).push((e.0@, e.1 as int)));
            },
            None => {
                assert(started_view(r@) =~= started_view(before) + Seq::empty());
            },
        }
        assert(started_view(r@) =~= started_entries(views.subrange(0, i as int + 1)));
        i += 1;
    }
    assert(views.subrange(0, lines@.len() as int) =~= views);
    r
}

/// The first container compose reported for `service`.
pub open spec fn container_of(observed: Seq<Container>, service: Seq<char>) -> Option<Container>
    decreases observed.len(),
{
    if observed.len() == 0 {
        None
    } else if observed[0].service@ == service {
        Some(observed[0])
    } else {
        container_of(observed.drop_first(), service)
    }
}

/// When the container `name` started, as the last line about it said.
pub open spec fn started_of(started: Seq<(String, u64)>, name: Seq<char>) -> Option<u64>
    decreases started.len(),
{
    if started.len() == 0 {
        None
    } else if started.last().0@ == name {
        Some(started.last().1)
    } else {
        started_of(started.drop_last(), name)
    }
}

/// How long a running container has been up at `now` (milliseconds since the epoch), from its
/// start time in seconds; nothing when it is not running, its start is unknown, or the clock reads
/// earlier than the start.
pub open spec fn uptime_of(container: Option<Container>, started: Seq<(String, u64)>, now: u64) -> Option<u64> {
    match container {
        Some(c) if c.running_spec() => match started_of(started, c.name@) {
            Some(at) if now as int >= at as int * 1000 => Some((now as int - at as int * 1000) as u64),
            _ => None,
        },
        _ => None,
    }
}

fn find_container<'a>(observed: &'a Vec<Container>, service: &str) -> (r: Option<&'a Container>)
    ensures
        match (r, container_of(observed@, service@)) {
            (Some(c), Some(d)) => *c == d,
            (None, None) => true,
            _ => false,
        },
{
    let mut i: usize = 0;
    assert(observed@.skip(0) =~= observed@);
    while i < observed.len()
        invariant
            i <= observed@.len(),
            container_of(observed@, service@) == container_of(observed@.skip(i as int), service@),
        decreases observed.len() - i,
    {
        assert(observed@.skip(i as int)[0] == observed@[i as int]);
        assert(observed@.skip(i as int).drop_first() =~= observed@.skip(i as int + 1));
        if str_eq(observed[i].service.as_str(), service) {
            return Some(&observed[i]);
        }
        i += 1;
    }
    None
}

fn find_started(started: &Vec<(String, u64)>, name: &str) -> (r: Option<u64>)
    ensures
        r == started_of(started@, name@),
{
    let mut k = started.len();
    assert(started@.subrange(0, k as int) =~= started@);
    while k > 0
        invariant
            k <= started@.len(),
            started_of(started@, name@) == started_of(started@.subrange(0, k as int), name@),
        decreases k,
    {
        assert(started@.subrange(0, k as int).last() == started@[k - 1]);
        assert(started@.subrange(0, k as int).drop_last() =~= started@.subrange(0, k - 1));
        if str_eq(started[k - 1].0.as_str(), name) {
            return Some(started[k - 1].1);
        }
        k -= 1;
    }
    None
}

/// The row of every declared service, keyed by unit key, from one reading of `compose ps` and the
/// start times `docker inspect` gave, at `now` (milliseconds since the epoch); beside each row, the
/// cache that reading leaves for it.
pub fn statuses(services: &Vec<Service>, observed: &Vec<Container>, started: &Vec<(String, u64)>, now: u64) -> (r: Vec<(String, Status, Cache)>)
    ensures
        r@.len() == services@.len(),
        forall|i: int| 0 <= i < r@.len() ==> {
            let service = #[trigger] services@[i];
            let (key, status, cache) = r@[i];
            let found = container_of(observed@, service.name@);
            &&& key@ == crate::unit::key_spec("docker"@, service.name@)
            &&& status.uptime == uptime_of(found, started@, now)
            &&& status.held is None
            &&& match found {
                None => status.state == State::Down && status.exit is None && status.note is None,
                Some(c) => {
                    &&& status.state == observed_state(c.state@, c.health@, service.one_shot)
                    &&& note_view(status.note) == observed_note(c.state@, c.health@)
                    &&& status.exit == if c.state@ == "exited"@ {
                        Some(Exit::Code(c.exit_code))
                    } else {
                        None
                    }
                },
            }
            &&& cache.seen_at == now
            &&& cache.uptime == status.uptime
            &&& match found {
                Some(c) => cache.state@ == c.state@ && cache.health@ == c.health@
                    && cache.exit_code == c.exit_code,
                None => cache.state@ == Seq::<char>::empty() && cache.health@
                    == Seq::<char>::empty() && cache.exit_code == 0,
            }
        },
{
    let mut r: Vec<(String, Status, Cache)> = Vec::new();
    let mut i: usize = 0;
    while i < services.len()
        invariant
            i <= services@.len(),
            r@.len() == i,
            forall|j: int| 0 <= j < i ==> {
                let service = #[trigger] services@[j];
                let (key, status, cache) = r@[j];
                let found = container_of(observed@, service.name@);
                &&& key@ == crate::unit::key_spec("docker"@, service.name@)
                &&& status.uptime == uptime_of(found, started@, now)
                &&& status.held is None
                &&& match found {
                    None => status.state == State::Down && status.exit is None && status.note is None,
                    Some(c) => {
                        &&& status.state == observed_state(c.state@, c.health@, service.one_shot)
                        &&& note_view(status.note) == observed_note(c.state@, c.health@)
                        &&& status.exit == if c.state@ == "exited"@ {
                            Some(Exit::Code(c.exit_code))
                        } else {
                            None
                        }
                    },
                }
                &&& cache.seen_at == now
                &&& cache.uptime == status.uptime
                &&& match found {
                    Some(c) => cache.state@ == c.state@ && cache.health@ == c.health@
                        && cache.exit_code == c.exit_code,
                    None => cache.state@ == Seq::<char>::empty() && cache.health@
                        == Seq::<char>::empty() && cache.exit_code == 0,
                }
            },
        decreases services.len() - i,
    {
        let service = &services[i];
        let found = find_container(observed, service.name.as_str());
        let mut status = observed_status(found, service.one_shot);
        let uptime = match found {
            Some(c) => if c.running() {
                match find_started(started, c.name.as_str()) {
                    Some(at) => {
                        let since = at as u128 * 1000;
                        if now as u128 >= since {
                            Some((now as u128 - since) as u64)
                        } else {
                            None
                        }
                    },
                    None => None,
                }
            } else {
                None
            },
            None => None,
        };
        status.uptime = uptime;
        let key = crate::unit::key(crate::unit::DOCKER, service.name.as_str());
        proof {
            reveal_strlit("docker");
        }
        let cache = cached(found, uptime, now);
        let ghost before = r@;
        r.push((key, status, cache));
        assert(r@ == before.push((key, status, cache)));
        i += 1;
    }
    r
}

} // verus!

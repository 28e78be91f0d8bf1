//! The daemon's bookkeeping: who is connected, since when it has owned nothing, and when the accept
//! loop is done. Times are milliseconds on a clock the caller reads.

use vstd::prelude::*;
use vstd::string::*;

use crate::cli::Act;
use crate::docker::Service;
use crate::json::{as_bool, as_str, get, get_spec, json_text, json_text_spec, keys_of, lemma_member, member, pair, single, str_spec, take, text, triple, Json, Num};
use crate::unit::Status;
use crate::local::Spec;
use crate::store::Identity;
use crate::text::{str_eq, views};

verus! {

/// Bumped only on a wire-breaking change.
pub const PROTOCOL: u64 = 2;

/// How long a daemon that owns nothing waits before it leaves: a fresh daemon has this long to
/// receive its first request.
pub const IDLE_WINDOW: u64 = 60000;

#[derive(Debug, PartialEq, Eq, Structural)]
pub enum Outcome {
    /// Served until it owned nothing for a whole idle window.
    Idle,
    /// Another daemon holds the lock; this process is redundant and says nothing.
    Redundant,
    /// Signalled, and took the stack with it.
    Signalled,
}

/// What the daemon owns, and since when it owned nothing. A connected client counts as ownership.
pub struct Ledger {
    clients: u64,
    empty_since: Option<u64>,
}

impl Ledger {
    /// The clock runs exactly when nobody is connected.
    pub closed spec fn wf(&self) -> bool {
        (self.clients == 0) == (self.empty_since is Some)
    }

    pub closed spec fn clients_spec(&self) -> nat {
        self.clients as nat
    }

    /// When the daemon last came to own nothing, while it still does.
    pub closed spec fn empty_since_spec(&self) -> Option<u64> {
        self.empty_since
    }

    /// A daemon starts owning nothing, at `now`.
    pub fn new(now: u64) -> (r: Ledger)
        ensures
            r.wf(),
            r.clients_spec() == 0,
            r.empty_since_spec() == Some(now),
    {
        Ledger { clients: 0, empty_since: Some(now) }
    }

    /// A client connected: the clock stops.
    pub fn arrive(&mut self)
        requires
            old(self).wf(),
            old(self).clients_spec() < u64::MAX,
        ensures
            final(self).wf(),
            final(self).clients_spec() == old(self).clients_spec() + 1,
            final(self).empty_since_spec() is None,
    {
        self.clients = self.clients + 1;
        self.empty_since = None;
    }

    /// A client left at `now`: the last one to leave starts the clock.
    pub fn depart(&mut self, now: u64)
        requires
            old(self).wf(),
            old(self).clients_spec() > 0,
        ensures
            final(self).wf(),
            final(self).clients_spec() == old(self).clients_spec() - 1,
            final(self).empty_since_spec() == if old(self).clients_spec() == 1 {
                Some(now)
            } else {
                None::<u64>
            },
    {
        self.clients = self.clients - 1;
        if self.clients == 0 {
            self.empty_since = Some(now);
        }
    }

    /// Whether the daemon has owned nothing for a whole `window` by `now`.
    pub open spec fn owned_nothing_for_spec(&self, window: u64, now: u64) -> bool {
        match self.empty_since_spec() {
            Some(since) => now >= since && now - since >= window,
            None => false,
        }
    }

    pub fn owned_nothing_for(&self, window: u64, now: u64) -> (r: bool)
        ensures
            r == self.owned_nothing_for_spec(window, now),
    {
        match self.empty_since {
            Some(since) => now >= since && now - since >= window,
            None => false,
        }
    }
}

/// One turn of the accept loop with no connection waiting: a signal ends it with the stack taken
/// down, and owning nothing, no client and no running unit, for a whole window ends it idle.
/// `None` is keep serving.
pub fn serve(ledger: &Ledger, signalled: bool, busy: bool, idle_window: u64, now: u64) -> (r: Option<
    Outcome,
>)
    ensures
        signalled ==> r == Some(Outcome::Signalled),
        !signalled ==> (r == if ledger.owned_nothing_for_spec(idle_window, now) && !busy {
            Some(Outcome::Idle)
        } else {
            None::<Outcome>
        }),
{
    if signalled {
        return Some(Outcome::Signalled);
    }
    if ledger.owned_nothing_for(idle_window, now) && !busy {
        return Some(Outcome::Idle);
    }
    None
}

/// While any client is still connected, the daemon has not owned nothing, whatever the window.
pub proof fn law_a_connected_client_holds_the_window_open(ledger: Ledger, window: u64, now: u64)
    requires
        ledger.wf(),
        ledger.clients_spec() > 0,
    ensures
        !ledger.owned_nothing_for_spec(window, now),
{
}


/// What a request asks the daemon for: the handshake, a verb on one unit, the states of one
/// project's units, or nothing it can do, with the reason it is refused for.
#[derive(Debug)]
pub enum Request {
    Handshake { id: Json },
    Verb { id: Json, act: Act, project: Identity, aim: Aim },
    Status { id: Json, project: Identity, services: Vec<Service> },
    Refused { id: Json, code: &'static str, message: String },
}

/// Which half a verb lands on: the daemon is the parent of a local unit and merely a caller of
/// `docker compose` for a service.
#[derive(Debug, Clone, PartialEq, Eq)]
pub enum Aim {
    Local(Spec),
    Docker(Service),
}

impl Aim {
    /// The code a failed verb is refused under.
    pub fn code(&self) -> (r: &'static str)
        ensures
            r@ == match self {
                Aim::Local(_) => "spawn"@,
                Aim::Docker(_) => "docker"@,
            },
    {
        match self {
            Aim::Local(_) => "spawn",
            Aim::Docker(_) => "docker",
        }
    }
}

/// A unit as plain values: a local one's name, command, directory and variables, or a service's
/// name and whether it is a one-shot.
pub enum AimView {
    Local { name: Seq<char>, cmd: Seq<Seq<char>>, cwd: Seq<char>, env: Seq<(Seq<char>, Seq<char>)> },
    Docker { name: Seq<char>, one_shot: bool },
}

pub open spec fn aim_view(a: Aim) -> AimView {
    match a {
        Aim::Local(spec) => AimView::Local {
            name: spec.name@,
            cmd: views(spec.cmd@),
            cwd: spec.cwd@,
            env: crate::env::pairs_view(spec.env@),
        },
        Aim::Docker(service) => AimView::Docker { name: service.name@, one_shot: service.one_shot },
    }
}

/// A request as plain values.
pub enum Asked {
    Handshake { id: Json },
    Verb { id: Json, act: Act, project: (Seq<char>, Seq<char>), aim: AimView },
    Status { id: Json, project: (Seq<char>, Seq<char>), services: Seq<(Seq<char>, bool)> },
    Refused { id: Json, code: Seq<char>, message: Seq<char> },
}

pub open spec fn services_view(v: Seq<Service>) -> Seq<(Seq<char>, bool)> {
    v.map_values(|s: Service| (s.name@, s.one_shot))
}

pub open spec fn request_view(r: Request) -> Asked {
    match r {
        Request::Handshake { id } => Asked::Handshake { id },
        Request::Verb { id, act, project, aim } => Asked::Verb { id, act, project: (project.path@, project.name@), aim: aim_view(aim) },
        Request::Status { id, project, services } => Asked::Status {
            id,
            project: (project.path@, project.name@),
            services: services_view(services@),
        },
        Request::Refused { id, code, message } => Asked::Refused { id, code: code@, message: message@ },
    }
}

/// The project a request names: its path is required, its name is not.
pub open spec fn project_of(project: Json) -> Result<(Seq<char>, Seq<char>), Seq<char>> {
    match str_spec(get_spec(project, "path"@)) {
        None => Err("project without a path"@),
        Some(path) => Ok(
            (
                path,
                match str_spec(get_spec(project, "name"@)) {
                    Some(n) => n,
                    None => Seq::empty(),
                },
            ),
        ),
    }
}

pub open spec fn project_spec(params: Option<Json>) -> Result<(Seq<char>, Seq<char>), Seq<char>> {
    match params {
        None => Err("no project"@),
        Some(p) => match get_spec(p, "project"@) {
            None => Err("no project"@),
            Some(project) => project_of(project),
        },
    }
}

fn project(params: Option<&Json>) -> (r: Result<Identity, String>)
    ensures
        match (r, project_spec(crate::json::held(params))) {
            (Ok(i), Ok((path, name))) => i.path@ == path && i.name@ == name,
            (Err(e), Err(w)) => e@ == w,
            _ => false,
        },
{
    let params = match params {
        None => {
            return Err(String::from_str("no project"));
        },
        Some(p) => p,
    };
    let project = match get(params, "project") {
        None => {
            return Err(String::from_str("no project"));
        },
        Some(p) => p,
    };
    let path = match as_str(get(project, "path")) {
        None => {
            return Err(String::from_str("project without a path"));
        },
        Some(path) => path,
    };
    let name = match as_str(get(project, "name")) {
        Some(n) => String::from_str(n),
        None => String::new(),
    };
    Ok(Identity { path: String::from_str(path), name })
}

/// Whether a unit or a service is a one-shot; not saying so is saying no.
pub open spec fn one_shot_spec(value: Json) -> bool {
    match crate::json::bool_spec(get_spec(value, "one_shot"@)) {
        Some(b) => b,
        None => false,
    }
}

fn one_shot(value: &Json) -> (r: bool)
    ensures
        r == one_shot_spec(*value),
{
    match as_bool(get(value, "one_shot")) {
        Some(b) => b,
        None => false,
    }
}

/// The strings of an array, anything else in it passed over.
pub open spec fn strings_spec(value: Option<Json>) -> Seq<Seq<char>> {
    match value {
        Some(Json::Array(items)) => items@.filter(|j: Json| j is Str).map_values(|j: Json| str_spec(Some(j))->0),
        _ => Seq::empty(),
    }
}

fn strings(value: Option<&Json>) -> (r: Vec<String>)
    ensures
        views(r@) == strings_spec(crate::json::held(value)),
{
    let items = match value {
        Some(Json::Array(items)) => items,
        _ => {
            let v: Vec<String> = Vec::new();
            assert(views(v@) =~= Seq::<Seq<char>>::empty());
            return v;
        },
    };
    let mut r: Vec<String> = Vec::new();
    let mut i: usize = 0;
    while i < items.len()
        invariant
            i <= items@.len(),
            views(r@) == items@.subrange(0, i as int).filter(|j: Json| j is Str).map_values(|j: Json| str_spec(Some(j))->0),
        decreases items.len() - i,
    {
        proof {
            items@.subrange(0, i as int).lemma_filter_push(items@[i as int], |j: Json| j is Str);
            assert(items@.subrange(0, i as int + 1) =~= items@.subrange(0, i as int).push(items@[i as int]));
        }
        match &items[i] {
            Json::Str(w) => {
                let ghost before = r@;
                r.push(w.clone());
                assert(views(r@) =~= views(before).push(w@));
                assert(items@.subrange(0, i as int + 1).filter(|j: Json| j is Str).map_values(|j: Json| str_spec(Some(j))->0) =~= items@.subrange(0, i as int).filter(|j: Json| j is Str).map_values(|j: Json| str_spec(Some(j))->0).push(w@));
            },
            _ => {
                assert(items@.subrange(0, i as int + 1).filter(|j: Json| j is Str) =~= items@.subrange(0, i as int).filter(|j: Json| j is Str));
            },
        }
        i += 1;
    }
    assert(items@.subrange(0, items@.len() as int) =~= items@);
    r
}

/// The members of an object whose values are strings, in order; anything else passed over.
pub open spec fn text_members(value: Option<Json>) -> Seq<(Seq<char>, Seq<char>)> {
    match value {
        Some(Json::Object(members)) => members@.filter(|m: (String, Json)| m.1 is Str).map_values(
            |m: (String, Json)| (m.0@, str_spec(Some(m.1))->0),
        ),
        _ => Seq::empty(),
    }
}

fn text_pairs(value: Option<&Json>) -> (r: Vec<(String, String)>)
    ensures
        crate::env::pairs_view(r@) == text_members(crate::json::held(value)),
{
    let members = match value {
        Some(Json::Object(members)) => members,
        _ => {
            let v: Vec<(String, String)> = Vec::new();
            assert(crate::env::pairs_view(v@) =~= Seq::<(Seq<char>, Seq<char>)>::empty());
            return v;
        },
    };
    let ghost keep = |m: (String, Json)| m.1 is Str;
    let ghost see = |m: (String, Json)| (m.0@, str_spec(Some(m.1))->0);
    let mut r: Vec<(String, String)> = Vec::new();
    let mut i: usize = 0;
    while i < members.len()
        invariant
            i <= members@.len(),
            keep == (|m: (String, Json)| m.1 is Str),
            see == (|m: (String, Json)| (m.0@, str_spec(Some(m.1))->0)),
            crate::env::pairs_view(r@) == members@.subrange(0, i as int).filter(keep).map_values(see),
        decreases members.len() - i,
    {
        proof {
            members@.subrange(0, i as int).lemma_filter_push(members@[i as int], keep);
            assert(members@.subrange(0, i as int + 1) =~= members@.subrange(0, i as int).push(members@[i as int]));
        }
        match &members[i].1 {
            Json::Str(w) => {
                let ghost before = r@;
                let pair = (members[i].0.clone(), w.clone());
                r.push(pair);
                assert(crate::env::pairs_view(r@) =~= crate::env::pairs_view(before).push((pair.0@, pair.1@)));
                assert(members@.subrange(0, i as int + 1).filter(keep).map_values(see) =~= members@.subrange(0, i as int).filter(keep).map_values(see).push(see(members@[i as int])));
            },
            _ => {
                assert(members@.subrange(0, i as int + 1).filter(keep) =~= members@.subrange(0, i as int).filter(keep));
            },
        }
        i += 1;
    }
    assert(members@.subrange(0, members@.len() as int) =~= members@);
    r
}

/// The unit a verb names. Its kind is required rather than defaulted: a service taken for a local
/// unit would be spawned as a process with no command at all.
pub open spec fn aim_of(unit: Json) -> Result<AimView, Seq<char>> {
    match str_spec(get_spec(unit, "name"@)) {
        None => Err("unit without a name"@),
        Some(name) => match str_spec(get_spec(unit, "kind"@)) {
            None => Err("unit without a kind"@),
            Some(kind) => if kind == "docker"@ {
                Ok(AimView::Docker { name, one_shot: one_shot_spec(unit) })
            } else if kind == "local"@ {
                Ok(
                    AimView::Local {
                        name,
                        cmd: strings_spec(get_spec(unit, "cmd"@)),
                        cwd: match str_spec(get_spec(unit, "cwd"@)) {
                            Some(c) => c,
                            None => Seq::empty(),
                        },
                        env: text_members(get_spec(unit, "env"@)),
                    },
                )
            } else {
                Err("unit of unknown kind `"@ + kind + "`"@)
            },
        },
    }
}

pub open spec fn aim_spec(params: Option<Json>) -> Result<AimView, Seq<char>> {
    match params {
        None => Err("no unit"@),
        Some(p) => match get_spec(p, "unit"@) {
            None => Err("no unit"@),
            Some(unit) => aim_of(unit),
        },
    }
}

fn aim(params: Option<&Json>) -> (r: Result<Aim, String>)
    ensures
        match (r, aim_spec(crate::json::held(params))) {
            (Ok(a), Ok(v)) => aim_view(a) == v,
            (Err(e), Err(w)) => e@ == w,
            _ => false,
        },
{
    proof {
        reveal_strlit("docker");
        reveal_strlit("local");
        assert("docker"@[0] != "local"@[0]);
    }
    let params = match params {
        None => {
            return Err(String::from_str("no unit"));
        },
        Some(p) => p,
    };
    let unit = match get(params, "unit") {
        None => {
            return Err(String::from_str("no unit"));
        },
        Some(u) => u,
    };
    let name = match as_str(get(unit, "name")) {
        None => {
            return Err(String::from_str("unit without a name"));
        },
        Some(n) => String::from_str(n),
    };
    let kind = match as_str(get(unit, "kind")) {
        None => {
            return Err(String::from_str("unit without a kind"));
        },
        Some(k) => k,
    };
    if str_eq(kind, crate::unit::DOCKER) {
        Ok(Aim::Docker(Service { name, one_shot: one_shot(unit) }))
    } else if str_eq(kind, crate::unit::LOCAL) {
        let cwd = match as_str(get(unit, "cwd")) {
            Some(c) => String::from_str(c),
            None => String::new(),
        };
        Ok(Aim::Local(Spec { name, cmd: strings(get(unit, "cmd")), cwd, env: text_pairs(get(unit, "env")), tty: false }))
    } else {
        let mut e = String::from_str("unit of unknown kind `");
        e.append(kind);
        e.append("`");
        Err(e)
    }
}

/// The declared services a status read is about, each as named; an entry without a name is passed
/// over. A project with none is never asked about docker at all.
pub open spec fn declared_services(docker: Option<Json>) -> Seq<(Seq<char>, bool)> {
    match docker {
        Some(Json::Array(items)) => items@.filter(|j: Json| str_spec(get_spec(j, "name"@)) is Some).map_values(
            |j: Json| (str_spec(get_spec(j, "name"@))->0, one_shot_spec(j)),
        ),
        _ => Seq::empty(),
    }
}

pub open spec fn services_spec(params: Option<Json>) -> Seq<(Seq<char>, bool)> {
    match params {
        Some(p) => declared_services(get_spec(p, "docker"@)),
        None => Seq::empty(),
    }
}

fn services(params: Option<&Json>) -> (r: Vec<Service>)
    ensures
        services_view(r@) == services_spec(crate::json::held(params)),
{
    let items = match params {
        Some(p) => match get(p, "docker") {
            Some(Json::Array(items)) => items,
            _ => {
                let v: Vec<Service> = Vec::new();
                assert(services_view(v@) =~= Seq::<(Seq<char>, bool)>::empty());
                return v;
            },
        },
        None => {
            let v: Vec<Service> = Vec::new();
            assert(services_view(v@) =~= Seq::<(Seq<char>, bool)>::empty());
            return v;
        },
    };
    let ghost keep = |j: Json| str_spec(get_spec(j, "name"@)) is Some;
    let ghost see = |j: Json| (str_spec(get_spec(j, "name"@))->0, one_shot_spec(j));
    let mut r: Vec<Service> = Vec::new();
    let mut i: usize = 0;
    while i < items.len()
        invariant
            i <= items@.len(),
            keep == (|j: Json| str_spec(get_spec(j, "name"@)) is Some),
            see == (|j: Json| (str_spec(get_spec(j, "name"@))->0, one_shot_spec(j))),
            services_view(r@) == items@.subrange(0, i as int).filter(keep).map_values(see),
        decreases items.len() - i,
    {
        proof {
            items@.subrange(0, i as int).lemma_filter_push(items@[i as int], keep);
            assert(items@.subrange(0, i as int + 1) =~= items@.subrange(0, i as int).push(items@[i as int]));
        }
        match as_str(get(&items[i], "name")) {
            Some(n) => {
                let ghost before = r@;
                let service = Service { name: String::from_str(n), one_shot: one_shot(&items[i]) };
                r.push(service);
                assert(services_view(r@) =~= services_view(before).push((service.name@, service.one_shot)));
                assert(items@.subrange(0, i as int + 1).filter(keep).map_values(see) =~= items@.subrange(0, i as int).filter(keep).map_values(see).push(see(items@[i as int])));
            },
            None => {
                assert(items@.subrange(0, i as int + 1).filter(keep) =~= items@.subrange(0, i as int).filter(keep));
            },
        }
        i += 1;
    }
    assert(items@.subrange(0, items@.len() as int) =~= items@);
    r
}

/// What a line on the socket asks for, read from what parsing it gave: a line that is not JSON is
/// malformed; a method names what is wanted; anything short of what that method needs is refused,
/// and a method the daemon does not know is refused by name rather than dropped. The request's own
/// `id` is answered under, or nothing when it has none.
pub open spec fn asked_spec(parsed: Result<Json, String>) -> Asked {
    match parsed {
        Err(e) => Asked::Refused { id: Json::Null, code: "malformed"@, message: e@ },
        Ok(request) => {
            let id = match get_spec(request, "id"@) {
                Some(v) => v,
                None => Json::Null,
            };
            let params = get_spec(request, "params"@);
            match str_spec(get_spec(request, "method"@)) {
                None => Asked::Refused { id, code: "malformed"@, message: "request carries no method"@ },
                Some(m) => if m == "handshake"@ {
                    Asked::Handshake { id }
                } else if m == "start"@ || m == "stop"@ || m == "restart"@ {
                    match project_spec(params) {
                        Err(e) => Asked::Refused { id, code: "malformed"@, message: e },
                        Ok(project) => match aim_spec(params) {
                            Err(e) => Asked::Refused { id, code: "malformed"@, message: e },
                            Ok(aim) => Asked::Verb {
                                id,
                                act: if m == "start"@ {
                                    Act::Start
                                } else if m == "stop"@ {
                                    Act::Stop
                                } else {
                                    Act::Restart
                                },
                                project,
                                aim,
                            },
                        },
                    }
                } else if m == "status"@ {
                    match project_spec(params) {
                        Err(e) => Asked::Refused { id, code: "malformed"@, message: e },
                        Ok(project) => Asked::Status { id, project, services: services_spec(params) },
                    }
                } else {
                    Asked::Refused { id, code: "unknown_method"@, message: "no method `"@ + m + "`"@ }
                },
            }
        },
    }
}

/// A request line as the daemon acts on it, once `serde_json` has read it.
pub open spec fn asked_of_line(line: Seq<char>) -> Asked {
    match json_text_spec(line) {
        Err(e) => Asked::Refused { id: Json::Null, code: "malformed"@, message: e },
        Ok(j) => asked_spec(Ok::<Json, String>(j)),
    }
}

/// A request line as the daemon acts on it.
pub fn request_line(line: &str) -> (r: Request)
    ensures
        request_view(r) == asked_of_line(line@),
{
    request_of(json_text(line))
}

/// A request as the daemon acts on it.
pub fn request_of(parsed: Result<Json, String>) -> (r: Request)
    ensures
        request_view(r) == asked_spec(parsed),
{
    let mut request = match parsed {
        Err(e) => {
            return Request::Refused { id: Json::Null, code: "malformed", message: e };
        },
        Ok(j) => j,
    };
    let ghost original = request;
    let params = get(&request, "params");
    let partial = match as_str(get(&request, "method")) {
        None => Request::Refused { id: Json::Null, code: "malformed", message: String::from_str("request carries no method") },
        Some(m) => if str_eq(m, "handshake") {
            Request::Handshake { id: Json::Null }
        } else if str_eq(m, "start") || str_eq(m, "stop") || str_eq(m, "restart") {
            let act = if str_eq(m, "start") {
                Act::Start
            } else if str_eq(m, "stop") {
                Act::Stop
            } else {
                Act::Restart
            };
            match project(params) {
                Err(e) => Request::Refused { id: Json::Null, code: "malformed", message: e },
                Ok(p) => match aim(params) {
                    Err(e) => Request::Refused { id: Json::Null, code: "malformed", message: e },
                    Ok(a) => Request::Verb { id: Json::Null, act, project: p, aim: a },
                },
            }
        } else if str_eq(m, "status") {
            match project(params) {
                Err(e) => Request::Refused { id: Json::Null, code: "malformed", message: e },
                Ok(p) => Request::Status { id: Json::Null, project: p, services: services(params) },
            }
        } else {
            let mut e = String::from_str("no method `");
            e.append(m);
            e.append("`");
            Request::Refused { id: Json::Null, code: "unknown_method", message: e }
        },
    };
    let id = match take(&mut request, "id") {
        Some(v) => v,
        None => Json::Null,
    };
    assert(id == match get_spec(original, "id"@) {
        Some(v) => v,
        None => Json::Null,
    });
    match partial {
        Request::Handshake { .. } => Request::Handshake { id },
        Request::Verb { act, project, aim, .. } => Request::Verb { id, act, project, aim },
        Request::Status { project, services, .. } => Request::Status { id, project, services },
        Request::Refused { code, message, .. } => Request::Refused { id, code, message },
    }
}


/// The answer to a request that was met: its `id`, and what it asked for.
pub fn reply(id: Json, result: Json) -> (r: Json)
    ensures
        keys_of(r) == seq!["id"@, "result"@],
        get_spec(r, "id"@) == Some(id),
        get_spec(r, "result"@) == Some(result),
        forall|method: Seq<char>| #[trigger] crate::client::reply_spec(method, Some(Ok::<Json, String>(r))) == Ok::<Json, Seq<char>>(result),
{
    proof {
        reveal_strlit("id");
        reveal_strlit("result");
        reveal_strlit("error");
        assert("id"@.len() != "result"@.len());
        assert("error"@.len() != "result"@.len() && "error"@.len() != "id"@.len());
    }
    let r = pair("id", id, "result", result);
    proof {
        assert(r is Object);
        let ms = r->Object_0@;
        let names = ms.map_values(|m: (String, Json)| m.0@);
        assert(names == seq!["id"@, "result"@]);
        assert(names[0] == ms[0].0@ && names[1] == ms[1].0@);
        lemma_member(ms, "error"@, ms.len() as int);
    }
    r
}

/// The answer to a request that was refused: its `id`, and a code and a sentence saying why.
pub fn failure(id: Json, code: &str, message: &str) -> (r: Json)
    ensures
        keys_of(r) == seq!["id"@, "error"@],
        get_spec(r, "id"@) == Some(id),
        match get_spec(r, "error"@) {
            Some(e) => keys_of(e) == seq!["code"@, "message"@] && str_spec(get_spec(e, "code"@)) == Some(code@)
                && str_spec(get_spec(e, "message"@)) == Some(message@),
            None => false,
        },
        forall|method: Seq<char>| #[trigger] crate::client::reply_spec(method, Some(Ok::<Json, String>(r)))
            == Err::<Json, Seq<char>>("daemon refused: "@ + code@ + ": "@ + message@),
{
    proof {
        reveal_strlit("id");
        reveal_strlit("error");
        reveal_strlit("code");
        reveal_strlit("message");
        assert("id"@.len() != "error"@.len());
        assert("code"@.len() != "message"@.len());
    }
    let error = pair("code", text(code), "message", text(message));
    pair("id", id, "error", error)
}

/// What a daemon says it is: the build, the protocol it speaks, and its pid.
pub fn handshake(version: &str, pid: u32) -> (r: Json)
    ensures
        keys_of(r) == seq!["version"@, "protocol"@, "pid"@],
        str_spec(get_spec(r, "version"@)) == Some(version@),
        get_spec(r, "protocol"@) == Some(Json::Num(Num::Pos(PROTOCOL))),
        get_spec(r, "pid"@) == Some(Json::Num(Num::Pos(pid as u64))),
        match crate::client::Peer::read_spec(r) {
            Ok(peer) => peer.version@ == version@ && peer.protocol == PROTOCOL && peer.pid == pid,
            Err(_) => false,
        },
{
    proof {
        reveal_strlit("version");
        reveal_strlit("protocol");
        reveal_strlit("pid");
        assert("version"@.len() == 7 && "protocol"@.len() == 8 && "pid"@.len() == 3);
    }
    triple("version", text(version), "protocol", Json::Num(Num::Pos(PROTOCOL)), "pid", Json::Num(Num::Pos(pid as u64)))
}

/// A verb's answer: the note it came back with, or nothing.
pub fn verb_reply(id: Json, note: Option<String>) -> (r: Json)
    ensures
        match get_spec(r, "result"@) {
            Some(result) => keys_of(result) == seq!["note"@] && match note {
                Some(n) => str_spec(get_spec(result, "note"@)) == Some(n@),
                None => get_spec(result, "note"@) == Some(Json::Null),
            },
            None => false,
        },
        get_spec(r, "id"@) == Some(id),
{
    let said = match note {
        Some(n) => Json::Str(n),
        None => Json::Null,
    };
    reply(id, single("note", said))
}

/// The states of a project's units, each under its unit's key, in the order given.
pub fn status_reply(id: Json, statuses: Vec<(String, Status)>) -> (r: Json)
    ensures
        get_spec(r, "id"@) == Some(id),
        match get_spec(r, "result"@) {
            Some(result) => keys_of(result) == seq!["units"@] && match get_spec(result, "units"@) {
                Some(units) => keys_of(units) == statuses@.map_values(|s: (String, Status)| s.0@) && (units matches Json::Object(members)
                    && members@.len() == statuses@.len() && forall|i: int| 0 <= i < statuses@.len() ==> Status::read_spec(
                    #[trigger] members@[i].1,
                ) == Ok::<Status, Seq<char>>(statuses@[i].1)),
                None => false,
            },
            None => false,
        },
{
    let mut members: Vec<(String, Json)> = Vec::new();
    let mut i: usize = 0;
    while i < statuses.len()
        invariant
            i <= statuses@.len(),
            members@.len() == i,
            forall|j: int| 0 <= j < i ==> (#[trigger] members@[j]).0@ == statuses@[j].0@,
            forall|j: int| 0 <= j < i ==> Status::read_spec(#[trigger] members@[j].1) == Ok::<Status, Seq<char>>(statuses@[j].1),
        decreases statuses.len() - i,
    {
        let entry = (statuses[i].0.clone(), statuses[i].1.to_value());
        members.push(entry);
        i += 1;
    }
    let ghost ms = members@;
    assert(ms.map_values(|m: (String, Json)| m.0@) =~= statuses@.map_values(|s: (String, Status)| s.0@));
    let units = Json::Object(members);
    reply(id, single("units", units))
}

proof fn lemma_read_units_all(members: Seq<(String, Json)>, statuses: Seq<(String, Status)>)
    requires
        members.len() == statuses.len(),
        forall|i: int| 0 <= i < members.len() ==> (#[trigger] members[i]).0@ == statuses[i].0@,
        forall|i: int| 0 <= i < members.len() ==> Status::read_spec(#[trigger] members[i].1) == Ok::<Status, Seq<char>>(statuses[i].1),
    ensures
        crate::client::read_units(members) == Ok::<Seq<(Seq<char>, Status)>, Seq<char>>(
            statuses.map_values(|s: (String, Status)| (s.0@, s.1)),
        ),
    decreases members.len(),
{
    if members.len() > 0 {
        let (ms, ss) = (members.drop_last(), statuses.drop_last());
        assert forall|i: int| 0 <= i < ms.len() implies (#[trigger] ms[i]).0@ == ss[i].0@ by {
            assert(ms[i] == members[i]);
        }
        assert forall|i: int| 0 <= i < ms.len() implies Status::read_spec(#[trigger] ms[i].1) == Ok::<Status, Seq<char>>(ss[i].1) by {
            assert(ms[i] == members[i]);
        }
        lemma_read_units_all(ms, ss);
        assert(members[members.len() - 1].0@ == statuses[statuses.len() - 1].0@);
        assert(Status::read_spec(members[members.len() - 1].1) == Ok::<Status, Seq<char>>(statuses[statuses.len() - 1].1));
        assert(statuses.map_values(|s: (String, Status)| (s.0@, s.1)) =~= ss.map_values(|s: (String, Status)| (s.0@, s.1)).push((statuses.last().0@, statuses.last().1)));
    } else {
        assert(statuses.map_values(|s: (String, Status)| (s.0@, s.1)) =~= Seq::<(Seq<char>, Status)>::empty());
    }
}

/// What the daemon answers a status read with is what the popup reads back: every unit, under its
/// key, in the state it was in, in the order it was sent.
pub proof fn law_a_status_reply_reads_back_whole(units: Json, statuses: Seq<(String, Status)>)
    requires
        keys_of(units) == statuses.map_values(|s: (String, Status)| s.0@),
        units matches Json::Object(members) && members@.len() == statuses.len() && forall|i: int|
            0 <= i < statuses.len() ==> Status::read_spec(#[trigger] members@[i].1) == Ok::<Status, Seq<char>>(statuses[i].1),
    ensures
        crate::client::read_units(units->Object_0@) == Ok::<Seq<(Seq<char>, Status)>, Seq<char>>(
            statuses.map_values(|s: (String, Status)| (s.0@, s.1)),
        ),
{
    let members = units->Object_0@;
    assert forall|i: int| 0 <= i < members.len() implies (#[trigger] members[i]).0@ == statuses[i].0@ by {
        assert(keys_of(units)[i] == members[i].0@);
        assert(statuses.map_values(|s: (String, Status)| s.0@)[i] == statuses[i].0@);
    }
    lemma_read_units_all(members, statuses);
}

/// A verb the client sends is the verb the daemon reads: the same request number, the same verb,
/// the project and the unit its parameters spell.
pub proof fn law_a_verb_sent_is_the_verb_read(
    request: Json,
    id: u64,
    act: Act,
    params: Json,
    project: (Seq<char>, Seq<char>),
    aim: AimView,
)
    requires
        get_spec(request, "id"@) == Some(Json::Num(Num::Pos(id))),
        str_spec(get_spec(request, "method"@)) == Some(act.label_spec()),
        get_spec(request, "params"@) == Some(params),
        project_spec(Some(params)) == Ok::<(Seq<char>, Seq<char>), Seq<char>>(project),
        aim_spec(Some(params)) == Ok::<AimView, Seq<char>>(aim),
    ensures
        asked_spec(Ok(request)) == (Asked::Verb { id: Json::Num(Num::Pos(id)), act, project, aim }),
{
    reveal_strlit("handshake");
    reveal_strlit("start");
    reveal_strlit("stop");
    reveal_strlit("restart");
    assert("handshake"@.len() == 9 && "start"@.len() == 5 && "stop"@.len() == 4 && "restart"@.len() == 7);
}

/// A status read the client sends is read as one: the same request number, the project, and the
/// services the parameters declare.
pub proof fn law_a_status_read_sent_is_the_status_read(request: Json, id: u64, params: Json, project: (Seq<char>, Seq<char>))
    requires
        get_spec(request, "id"@) == Some(Json::Num(Num::Pos(id))),
        str_spec(get_spec(request, "method"@)) == Some("status"@),
        get_spec(request, "params"@) == Some(params),
        project_spec(Some(params)) == Ok::<(Seq<char>, Seq<char>), Seq<char>>(project),
    ensures
        asked_spec(Ok(request)) == (Asked::Status {
            id: Json::Num(Num::Pos(id)),
            project,
            services: services_spec(Some(params)),
        }),
{
    reveal_strlit("handshake");
    reveal_strlit("start");
    reveal_strlit("stop");
    reveal_strlit("restart");
    reveal_strlit("status");
    assert("handshake"@.len() == 9 && "start"@.len() == 5 && "stop"@.len() == 4 && "restart"@.len() == 7);
    assert("status"@.len() == 6);
}

} // verus!

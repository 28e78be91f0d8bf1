//! The TUI's end of the daemon socket: where a daemon is reached and how one is started, what a verb
//! acts on, and what a daemon that answered said it is.

use vstd::prelude::*;
use vstd::string::*;

use crate::manifest::{DockerService, LocalUnit, Project};
use crate::paths::join_spec;
use crate::state::{root, root_spec, socket_path};
use crate::daemon::{aim_spec, project_spec, services_spec, AimView};
use crate::env::pairs_view;
use crate::json::{as_str, as_u64, get, get_spec, keys_of, lemma_member, pair, str_spec, take, text, triple, u64_spec, Json, Num};
use crate::text::{decimal, decimal_string, str_eq, views};
use crate::unit::Status;

verus! {

/// Where a daemon is reached, and how one is started if none answers.
#[derive(Debug, Clone)]
pub struct Endpoint {
    root: String,
}

impl Endpoint {
    pub closed spec fn root_spec(&self) -> Seq<char> {
        self.root@
    }

    /// The one endpoint that exists in production: the state root spelled out under `home`.
    pub fn spelled_out(home: &str) -> (r: Endpoint)
        ensures
            r.root_spec() == root_spec(home@),
    {
        Endpoint { root: root(home) }
    }

    pub fn at(root: String) -> (r: Endpoint)
        ensures
            r.root_spec() == root@,
    {
        Endpoint { root }
    }

    pub fn socket_path(&self) -> (r: String)
        ensures
            r@ == join_spec(self.root_spec(), "daemon.sock"@),
    {
        socket_path(self.root.as_str())
    }

    /// The arguments a daemon for this endpoint is started with: `daemon`, and the root only when
    /// it is not the spelled-out one, so the production argv stays exactly `daemon`.
    pub fn command_args(&self, home: &str) -> (r: Vec<String>)
        ensures
            self.root_spec() == root_spec(home@) ==> crate::text::views(r@) == seq!["daemon"@],
            self.root_spec() != root_spec(home@) ==> crate::text::views(r@) == seq![
                "daemon"@,
                "--state-root"@,
                self.root_spec(),
            ],
    {
        let mut args: Vec<String> = Vec::new();
        args.push(String::from_str("daemon"));
        let production = root(home);
        if !str_eq(self.root.as_str(), production.as_str()) {
            args.push(String::from_str("--state-root"));
            args.push(self.root.clone());
        }
        assert(crate::text::views(args@) =~= if self.root@ == root_spec(home@) {
            seq!["daemon"@]
        } else {
            seq!["daemon"@, "--state-root"@, self.root@]
        });
        args
    }
}

/// What a verb acts on, resolved from the row under the cursor against the manifest it came from.
#[derive(Debug, Clone, PartialEq, Eq)]
pub enum Target<'a> {
    Local(&'a LocalUnit),
    Docker(&'a DockerService),
}

/// The first service of that name.
pub open spec fn service_named(services: Seq<DockerService>, name: Seq<char>) -> Option<int>
    decreases services.len(),
{
    if services.len() == 0 {
        None
    } else {
        match service_named(services.drop_last(), name) {
            Some(i) => Some(i),
            None => if services.last().name@ == name {
                Some(services.len() - 1)
            } else {
                None
            },
        }
    }
}

/// The first local unit of that name.
pub open spec fn unit_named(units: Seq<LocalUnit>, name: Seq<char>) -> Option<int>
    decreases units.len(),
{
    if units.len() == 0 {
        None
    } else {
        match unit_named(units.drop_last(), name) {
            Some(i) => Some(i),
            None => if units.last().name@ == name {
                Some(units.len() - 1)
            } else {
                None
            },
        }
    }
}

proof fn lemma_service_named(services: Seq<DockerService>, name: Seq<char>, i: int)
    requires
        0 <= i <= services.len(),
        forall|j: int| 0 <= j < i ==> services[j].name@ != name,
        i < services.len() ==> services[i].name@ == name,
    ensures
        service_named(services, name) == if i < services.len() {
            Some(i)
        } else {
            None::<int>
        },
    decreases services.len(),
{
    if services.len() > 0 {
        if i < services.len() - 1 {
            lemma_service_named(services.drop_last(), name, i);
        } else {
            lemma_service_named(services.drop_last(), name, services.len() - 1);
        }
    }
}

proof fn lemma_unit_named(units: Seq<LocalUnit>, name: Seq<char>, i: int)
    requires
        0 <= i <= units.len(),
        forall|j: int| 0 <= j < i ==> units[j].name@ != name,
        i < units.len() ==> units[i].name@ == name,
    ensures
        unit_named(units, name) == if i < units.len() {
            Some(i)
        } else {
            None::<int>
        },
    decreases units.len(),
{
    if units.len() > 0 {
        if i < units.len() - 1 {
            lemma_unit_named(units.drop_last(), name, i);
        } else {
            lemma_unit_named(units.drop_last(), name, units.len() - 1);
        }
    }
}

/// What a verb on a `kind` row named `name` is refused with, if it is refused: no such unit, a unit
/// the manifest could not make sense of, or a row of no unit's kind.
pub open spec fn target_refused(project: Project, kind: Seq<char>, name: Seq<char>) -> Option<Seq<char>> {
    if kind == "docker"@ {
        match service_named(project.docker@, name) {
            Some(_) => None,
            None => Some("no docker service named "@ + name),
        }
    } else if kind == "local"@ {
        match unit_named(project.local@, name) {
            Some(i) => match project.local@[i].problem {
                Some(problem) => Some(problem@),
                None => None,
            },
            None => Some("no local unit named "@ + name),
        }
    } else {
        Some("nothing a verb can act on in a `"@ + kind + "` row"@)
    }
}

/// Whether `t` is the unit a verb on a `kind` row named `name` reaches: the first of that name.
pub open spec fn is_target(project: Project, kind: Seq<char>, name: Seq<char>, t: Target) -> bool {
    if kind == "docker"@ {
        match service_named(project.docker@, name) {
            Some(i) => t matches Target::Docker(s) && *s == project.docker@[i],
            None => false,
        }
    } else if kind == "local"@ {
        match unit_named(project.local@, name) {
            Some(i) => project.local@[i].problem is None && (t matches Target::Local(u) && *u == project.local@[i]),
            None => false,
        }
    } else {
        false
    }
}

impl<'a> Target<'a> {
    /// A row carries only a kind and a name; the manifest holds what the daemon has to be told. A
    /// unit the manifest could not make sense of refuses with its own complaint.
    pub fn of(project: &'a Project, kind: &str, name: &str) -> (r: Result<Target<'a>, String>)
        ensures
            kind@ == "docker"@ ==> match service_named(project.docker@, name@) {
                Some(i) => r == Ok::<Target<'a>, String>(Target::Docker(&project.docker@[i])),
                None => r matches Err(e) && e@ == "no docker service named "@ + name@,
            },
            kind@ == "local"@ ==> match unit_named(project.local@, name@) {
                Some(i) => match project.local@[i].problem {
                    Some(problem) => r matches Err(e) && e@ == problem@,
                    None => r == Ok::<Target<'a>, String>(Target::Local(&project.local@[i])),
                },
                None => r matches Err(e) && e@ == "no local unit named "@ + name@,
            },
            kind@ != "docker"@ && kind@ != "local"@ ==> (r matches Err(e) && e@
                == "nothing a verb can act on in a `"@ + kind@ + "` row"@),
            match r {
                Ok(t) => target_refused(*project, kind@, name@) is None && is_target(*project, kind@, name@, t),
                Err(e) => target_refused(*project, kind@, name@) == Some(e@),
            },
    {
        proof {
            reveal_strlit("docker");
            reveal_strlit("local");
            assert("docker"@[0] != "local"@[0]);
        }
        if str_eq(kind, crate::unit::DOCKER) {
            let mut i: usize = 0;
            while i < project.docker.len() && !str_eq(project.docker[i].name.as_str(), name)
                invariant
                    i <= project.docker@.len(),
                    forall|j: int| 0 <= j < i ==> project.docker@[j].name@ != name@,
                decreases project.docker.len() - i,
            {
                i += 1;
            }
            proof {
                lemma_service_named(project.docker@, name@, i as int);
            }
            if i < project.docker.len() {
                return Ok(Target::Docker(&project.docker[i]));
            }
            let mut e = String::from_str("no docker service named ");
            e.append(name);
            Err(e)
        } else if str_eq(kind, crate::unit::LOCAL) {
            let mut i: usize = 0;
            while i < project.local.len() && !str_eq(project.local[i].name.as_str(), name)
                invariant
                    i <= project.local@.len(),
                    forall|j: int| 0 <= j < i ==> project.local@[j].name@ != name@,
                decreases project.local.len() - i,
            {
                i += 1;
            }
            proof {
                lemma_unit_named(project.local@, name@, i as int);
            }
            if i < project.local.len() {
                return match &project.local[i].problem {
                    Some(problem) => Err(problem.clone()),
                    None => Ok(Target::Local(&project.local[i])),
                };
            }
            let mut e = String::from_str("no local unit named ");
            e.append(name);
            Err(e)
        } else {
            let mut e = String::from_str("nothing a verb can act on in a `");
            e.append(kind);
            e.append("` row");
            Err(e)
        }
    }
}

/// What the daemon said it is.
#[derive(Debug, Clone, PartialEq, Eq)]
pub struct Peer {
    pub version: String,
    pub protocol: u64,
    pub pid: u32,
}

impl Peer {
    /// A daemon speaking another protocol is skewed; a rebuild changes `version` only.
    pub fn skewed(&self) -> (r: bool)
        ensures
            r == (self.protocol != crate::daemon::PROTOCOL),
    {
        self.protocol != crate::daemon::PROTOCOL
    }

    /// One line for the footer: what is running the stack, or, under skew, which process to kill.
    pub open spec fn footer_spec(&self) -> Seq<char> {
        if self.protocol != 2 {
            "daemon "@ + self.version@ + " pid "@ + decimal(self.pid as nat) + " speaks protocol "@
                + decimal(self.protocol as nat) + ", this build speaks "@ + decimal(2) + " — kill "@
                + decimal(self.pid as nat) + " to clear it"@
        } else {
            "daemon "@ + self.version@ + "  pid "@ + decimal(self.pid as nat)
        }
    }

    pub fn footer(&self) -> (r: String)
        ensures
            r@ == self.footer_spec(),
    {
        let pid = decimal_string(self.pid as u64);
        let mut r = String::from_str("daemon ");
        r.append(self.version.as_str());
        if self.skewed() {
            r.append(" pid ");
            r.append(pid.as_str());
            r.append(" speaks protocol ");
            let protocol = decimal_string(self.protocol);
            r.append(protocol.as_str());
            r.append(", this build speaks ");
            let ours = decimal_string(crate::daemon::PROTOCOL);
            r.append(ours.as_str());
            r.append(" — kill ");
            r.append(pid.as_str());
            r.append(" to clear it");
        } else {
            r.append("  pid ");
            r.append(pid.as_str());
        }
        r
    }
}


/// How a project is named to the daemon: its root and its name.
pub fn describe(project: &Project) -> (r: Json)
    ensures
        crate::daemon::project_of(r) == Ok::<(Seq<char>, Seq<char>), Seq<char>>((project.root@, project.name@)),
        keys_of(r) == seq!["path"@, "name"@],
        str_spec(get_spec(r, "path"@)) == Some(project.root@),
        str_spec(get_spec(r, "name"@)) == Some(project.name@),
{
    proof {
        reveal_strlit("path");
        reveal_strlit("name");
        reveal_strlit("project");
        assert("path"@ != "name"@) by {
            assert("path"@[0] != "name"@[0]);
        }
    }
    pair("path", text(project.root.as_str()), "name", text(project.name.as_str()))
}

/// The strings of `words` as a JSON array.
pub(crate) fn word_array(words: &Vec<String>) -> (r: Json)
    ensures
        r is Array,
        crate::daemon::strings_spec(Some(r)) == views(words@),
{
    let mut items: Vec<Json> = Vec::new();
    let mut i: usize = 0;
    while i < words.len()
        invariant
            i <= words@.len(),
            items@.len() == i,
            forall|j: int| 0 <= j < i ==> (#[trigger] items@[j]) is Str,
            items@.filter(|j: Json| j is Str).map_values(|j: Json| str_spec(Some(j))->0) == views(words@.subrange(0, i as int)),
        decreases words.len() - i,
    {
        let ghost before = items@;
        let item = Json::Str(words[i].clone());
        items.push(item);
        proof {
            before.lemma_filter_push(item, |j: Json| j is Str);
            assert(items@ == before.push(item));
            assert(views(words@.subrange(0, i as int + 1)) =~= views(words@.subrange(0, i as int)).push(words@[i as int]@));
            assert(items@.filter(|j: Json| j is Str).map_values(|j: Json| str_spec(Some(j))->0) =~= before.filter(|j: Json| j is Str).map_values(|j: Json| str_spec(Some(j))->0).push(words@[i as int]@));
        }
        i += 1;
    }
    assert(words@.subrange(0, words@.len() as int) =~= words@);
    Json::Array(items)
}

/// Variables as a JSON object, each value a string.
fn variables(env: &Vec<(String, String)>) -> (r: Json)
    ensures
        r is Object,
        crate::daemon::text_members(Some(r)) == pairs_view(env@),
{
    let ghost keep = |m: (String, Json)| m.1 is Str;
    let ghost see = |m: (String, Json)| (m.0@, str_spec(Some(m.1))->0);
    let mut members: Vec<(String, Json)> = Vec::new();
    let mut i: usize = 0;
    while i < env.len()
        invariant
            i <= env@.len(),
            keep == (|m: (String, Json)| m.1 is Str),
            see == (|m: (String, Json)| (m.0@, str_spec(Some(m.1))->0)),
            members@.filter(keep).map_values(see) == pairs_view(env@.subrange(0, i as int)),
        decreases env.len() - i,
    {
        let ghost before = members@;
        let member = (env[i].0.clone(), Json::Str(env[i].1.clone()));
        members.push(member);
        proof {
            before.lemma_filter_push(member, keep);
            assert(members@ == before.push(member));
            assert(pairs_view(env@.subrange(0, i as int + 1)) =~= pairs_view(env@.subrange(0, i as int)).push((env@[i as int].0@, env@[i as int].1@)));
            assert(members@.filter(keep).map_values(see) =~= before.filter(keep).map_values(see).push(see(member)));
        }
        i += 1;
    }
    assert(env@.subrange(0, env@.len() as int) =~= env@);
    Json::Object(members)
}

/// A unit as the daemon reads it back, the way `spell` spells it.
pub open spec fn target_view(target: Target) -> AimView {
    match target {
        Target::Local(unit) => AimView::Local {
            name: unit.name@,
            cmd: views(unit.cmd@),
            cwd: unit.cwd@,
            env: pairs_view(unit.env@),
        },
        Target::Docker(service) => AimView::Docker { name: service.name@, one_shot: service.one_shot },
    }
}

/// The daemon is told what to run and nothing about manifests, so a unit crosses the wire whole:
/// what the daemon reads back is the unit itself.
pub fn spell(target: &Target) -> (r: Json)
    ensures
        crate::daemon::aim_of(r) == Ok::<AimView, Seq<char>>(target_view(*target)),
{
    proof {
        reveal_strlit("kind");
        reveal_strlit("name");
        reveal_strlit("cmd");
        reveal_strlit("cwd");
        reveal_strlit("env");
        reveal_strlit("one_shot");
        reveal_strlit("local");
        reveal_strlit("docker");
        reveal_strlit("unit");
        assert("kind"@.len() == 4 && "name"@.len() == 4 && "cmd"@.len() == 3 && "cwd"@.len() == 3);
        assert("env"@.len() == 3 && "one_shot"@.len() == 8);
        assert("kind"@[0] != "name"@[0] && "cmd"@[1] != "cwd"@[1] && "cmd"@[0] != "env"@[0] && "cwd"@[0] != "env"@[0]);
        assert("docker"@[0] != "local"@[0]);
    }
    match target {
        Target::Local(unit) => {
            let members = vec![
                (String::from_str("kind"), text(crate::unit::LOCAL)),
                (String::from_str("name"), text(unit.name.as_str())),
                (String::from_str("cmd"), word_array(&unit.cmd)),
                (String::from_str("cwd"), text(unit.cwd.as_str())),
                (String::from_str("env"), variables(&unit.env)),
            ];
            proof {
                lemma_member(members@, "kind"@, 0);
                lemma_member(members@, "name"@, 1);
                lemma_member(members@, "cmd"@, 2);
                lemma_member(members@, "cwd"@, 3);
                lemma_member(members@, "env"@, 4);
            }
            Json::Object(members)
        },
        Target::Docker(service) => {
            proof {
                assert("kind"@ != "one_shot"@ && "name"@ != "one_shot"@);
            }
            triple("kind", text(crate::unit::DOCKER), "name", text(service.name.as_str()), "one_shot", Json::Bool(service.one_shot))
        },
    }
}

/// The services a status read is about, in the manifest's own order.
pub fn declared(project: &Project) -> (r: Json)
    ensures
        crate::daemon::declared_services(Some(r)) == project.docker@.map_values(|s: DockerService| (s.name@, s.one_shot)),
{
    proof {
        reveal_strlit("name");
        reveal_strlit("one_shot");
        assert("name"@.len() != "one_shot"@.len());
    }
    let ghost keep = |j: Json| str_spec(get_spec(j, "name"@)) is Some;
    let ghost see = |j: Json| (str_spec(get_spec(j, "name"@))->0, crate::daemon::one_shot_spec(j));
    let mut items: Vec<Json> = Vec::new();
    let mut i: usize = 0;
    while i < project.docker.len()
        invariant
            i <= project.docker@.len(),
            keep == (|j: Json| str_spec(get_spec(j, "name"@)) is Some),
            see == (|j: Json| (str_spec(get_spec(j, "name"@))->0, crate::daemon::one_shot_spec(j))),
            items@.filter(keep).map_values(see) == project.docker@.subrange(0, i as int).map_values(|s: DockerService| (s.name@, s.one_shot)),
        decreases project.docker.len() - i,
    {
        proof {
            reveal_strlit("name");
            reveal_strlit("one_shot");
            assert("name"@.len() != "one_shot"@.len());
        }
        let ghost before = items@;
        let service = &project.docker[i];
        let item = pair("name", text(service.name.as_str()), "one_shot", Json::Bool(service.one_shot));
        items.push(item);
        proof {
            before.lemma_filter_push(item, keep);
            assert(items@ == before.push(item));
            assert(project.docker@.subrange(0, i as int + 1).map_values(|s: DockerService| (s.name@, s.one_shot)) =~= project.docker@.subrange(0, i as int).map_values(|s: DockerService| (s.name@, s.one_shot)).push((service.name@, service.one_shot)));
            assert(items@.filter(keep).map_values(see) =~= before.filter(keep).map_values(see).push(see(item)));
        }
        i += 1;
    }
    assert(project.docker@.subrange(0, project.docker@.len() as int) =~= project.docker@);
    Json::Array(items)
}

/// What a verb sends: the project and the unit. The daemon reads back exactly the project and the
/// unit the popup meant.
pub fn verb_params(project: &Project, target: &Target) -> (r: Json)
    ensures
        project_spec(Some(r)) == Ok::<(Seq<char>, Seq<char>), Seq<char>>((project.root@, project.name@)),
        aim_spec(Some(r)) == Ok::<AimView, Seq<char>>(target_view(*target)),
{
    proof {
        reveal_strlit("project");
        reveal_strlit("unit");
        assert("project"@.len() != "unit"@.len());
    }
    let d = describe(project);
    let u = spell(target);
    let r = pair("project", d, "unit", u);
    r
}

/// What a status read sends: the project, and the services it declares.
pub fn status_params(project: &Project) -> (r: Json)
    ensures
        project_spec(Some(r)) == Ok::<(Seq<char>, Seq<char>), Seq<char>>((project.root@, project.name@)),
        services_spec(Some(r)) == project.docker@.map_values(|s: DockerService| (s.name@, s.one_shot)),
{
    proof {
        reveal_strlit("project");
        reveal_strlit("docker");
        assert("project"@.len() != "docker"@.len());
    }
    let d = describe(project);
    let k = declared(project);
    let r = pair("project", d, "docker", k);
    r
}

/// One request on the wire: its number, its method, and what it is about.
pub fn request_line(id: u64, method: &str, params: Json) -> (r: Json)
    ensures
        keys_of(r) == seq!["id"@, "method"@, "params"@],
        get_spec(r, "id"@) == Some(Json::Num(Num::Pos(id))),
        str_spec(get_spec(r, "method"@)) == Some(method@),
        get_spec(r, "params"@) == Some(params),
{
    proof {
        reveal_strlit("id");
        reveal_strlit("method");
        reveal_strlit("params");
        assert("id"@.len() == 2 && "method"@.len() == 6 && "params"@.len() == 6);
        assert("method"@[0] != "params"@[0]);
    }
    triple("id", Json::Num(Num::Pos(id)), "method", text(method), "params", params)
}

/// What a reply to `method` comes to: its result, or the sentence it is refused with. `None` is a
/// blank line; an `Err` is a line that would not parse.
pub open spec fn reply_spec(method: Seq<char>, parsed: Option<Result<Json, String>>) -> Result<Json, Seq<char>> {
    match parsed {
        None => Err(method + ": the daemon said nothing"@),
        Some(Err(e)) => Err(method + ": "@ + e@),
        Some(Ok(reply)) => match get_spec(reply, "error"@) {
            Some(error) => Err(
                "daemon refused: "@ + match str_spec(get_spec(error, "code"@)) {
                    Some(c) => c,
                    None => "error"@,
                } + ": "@ + match str_spec(get_spec(error, "message"@)) {
                    Some(m) => m,
                    None => "(no message)"@,
                },
            ),
            None => match get_spec(reply, "result"@) {
                Some(result) => Ok(result),
                None => Err(method + ": reply carries neither result nor error"@),
            },
        },
    }
}

pub fn reply_of(method: &str, parsed: Option<Result<Json, String>>) -> (r: Result<Json, String>)
    ensures
        match (r, reply_spec(method@, parsed)) {
            (Ok(v), Ok(w)) => v == w,
            (Err(e), Err(w)) => e@ == w,
            _ => false,
        },
{
    let mut reply = match parsed {
        None => {
            let mut e = String::from_str(method);
            e.append(": the daemon said nothing");
            return Err(e);
        },
        Some(Err(error)) => {
            let mut e = String::from_str(method);
            e.append(": ");
            e.append(error.as_str());
            return Err(e);
        },
        Some(Ok(reply)) => reply,
    };
    match get(&reply, "error") {
        Some(error) => {
            let mut e = String::from_str("daemon refused: ");
            match as_str(get(error, "code")) {
                Some(c) => e.append(c),
                None => e.append("error"),
            }
            e.append(": ");
            match as_str(get(error, "message")) {
                Some(m) => e.append(m),
                None => e.append("(no message)"),
            }
            return Err(e);
        },
        None => {},
    }
    match take(&mut reply, "result") {
        Some(result) => Ok(result),
        None => {
            let mut e = String::from_str(method);
            e.append(": reply carries neither result nor error");
            Err(e)
        },
    }
}

impl Peer {
    /// What a handshake says the daemon is: every field is required.
    pub open spec fn read_spec(handshake: Json) -> Result<Peer, Seq<char>> {
        match get_spec(handshake, "version"@) {
            Some(Json::Str(version)) => match u64_spec(get_spec(handshake, "protocol"@)) {
                None => Err("handshake: no protocol"@),
                Some(protocol) => match u64_spec(get_spec(handshake, "pid"@)) {
                    None => Err("handshake: no pid"@),
                    Some(pid) => Ok(Peer { version, protocol, pid: pid as u32 }),
                },
            },
            _ => Err("handshake: no version"@),
        }
    }

    pub fn read(handshake: &Json) -> (r: Result<Peer, String>)
        ensures
            match (r, Peer::read_spec(*handshake)) {
                (Ok(p), Ok(q)) => p == q,
                (Err(e), Err(w)) => e@ == w,
                _ => false,
            },
    {
        let version = match get(handshake, "version") {
            Some(Json::Str(v)) => v.clone(),
            _ => {
                return Err(String::from_str("handshake: no version"));
            },
        };
        let protocol = match as_u64(get(handshake, "protocol")) {
            None => {
                return Err(String::from_str("handshake: no protocol"));
            },
            Some(p) => p,
        };
        let pid = match as_u64(get(handshake, "pid")) {
            None => {
                return Err(String::from_str("handshake: no pid"));
            },
            Some(p) => p,
        };
        Ok(Peer { version, protocol, pid: pid as u32 })
    }
}

/// A status reply's units read, each under its key, in the order the reply gives them; the first
/// that cannot be read is the error.
pub open spec fn read_units(members: Seq<(String, Json)>) -> Result<Seq<(Seq<char>, Status)>, Seq<char>>
    decreases members.len(),
{
    if members.len() == 0 {
        Ok(Seq::empty())
    } else {
        match read_units(members.drop_last()) {
            Err(e) => Err(e),
            Ok(v) => match Status::read_spec(members.last().1) {
                Err(e) => Err(e),
                Ok(s) => Ok(v.push((members.last().0@, s))),
            },
        }
    }
}

pub open spec fn statuses_spec(reply: Json) -> Result<Seq<(Seq<char>, Status)>, Seq<char>> {
    match get_spec(reply, "units"@) {
        Some(Json::Object(members)) => read_units(members@),
        _ => Err("status: no units"@),
    }
}

/// The states a status reply carries, keyed by unit key, so a local and a docker unit of one name
/// stay apart.
pub fn statuses_of(reply: &Json) -> (r: Result<Vec<(String, Status)>, String>)
    ensures
        match (r, statuses_spec(*reply)) {
            (Ok(v), Ok(w)) => v@.map_values(|p: (String, Status)| (p.0@, p.1)) == w,
            (Err(e), Err(w)) => e@ == w,
            _ => false,
        },
{
    let members = match get(reply, "units") {
        Some(Json::Object(members)) => members,
        _ => {
            return Err(String::from_str("status: no units"));
        },
    };
    let mut r: Vec<(String, Status)> = Vec::new();
    assert(r@.map_values(|p: (String, Status)| (p.0@, p.1)) =~= Seq::<(Seq<char>, Status)>::empty());
    assert(members@.subrange(0, 0) =~= Seq::<(String, Json)>::empty());
    let mut i: usize = 0;
    assert(statuses_spec(*reply) == read_units(members@));
    while i < members.len()
        invariant
            i <= members@.len(),
            statuses_spec(*reply) == read_units(members@),
            read_units(members@.subrange(0, i as int)) == Ok::<Seq<(Seq<char>, Status)>, Seq<char>>(r@.map_values(|p: (String, Status)| (p.0@, p.1))),
        decreases members.len() - i,
    {
        assert(members@.subrange(0, i as int + 1).drop_last() =~= members@.subrange(0, i as int));
        assert(members@.subrange(0, i as int + 1).last() == members@[i as int]);
        match Status::read(&members[i].1) {
            Err(e) => {
                proof {
                    assert(Status::read_spec(members@[i as int].1) == Err::<Status, Seq<char>>(e@));
                    assert(read_units(members@.subrange(0, i as int + 1)) == Err::<Seq<(Seq<char>, Status)>, Seq<char>>(e@));
                    lemma_read_units_stays_failed(members@, i as int + 1);
                }
                return Err(e);
            },
            Ok(s) => {
                let ghost before = r@;
                let entry = (members[i].0.clone(), s);
                r.push(entry);
                assert(r@.map_values(|p: (String, Status)| (p.0@, p.1)) =~= before.map_values(|p: (String, Status)| (p.0@, p.1)).push((entry.0@, entry.1)));
            },
        }
        i += 1;
    }
    assert(members@.subrange(0, members@.len() as int) =~= members@);
    Ok(r)
}

proof fn lemma_read_units_stays_failed(members: Seq<(String, Json)>, k: int)
    requires
        0 <= k <= members.len(),
        read_units(members.subrange(0, k)) is Err,
    ensures
        read_units(members) == read_units(members.subrange(0, k)),
    decreases members.len() - k,
{
    if k < members.len() {
        assert(members.subrange(0, k + 1).drop_last() =~= members.subrange(0, k));
        lemma_read_units_stays_failed(members, k + 1);
    } else {
        assert(members.subrange(0, k) =~= members);
    }
}

/// The note a verb's answer carries, if any.
pub fn note_of(reply: &Json) -> (r: Option<String>)
    ensures
        crate::text::opt_view(r) == str_spec(get_spec(*reply, "note"@)),
{
    match as_str(get(reply, "note")) {
        Some(n) => Some(String::from_str(n)),
        None => None,
    }
}

} // verus!

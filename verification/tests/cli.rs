use herdr_dev::cli::{described, pick, Act, Found};
use herdr_dev::client::{request_line, status_params, verb_params, Target};
use herdr_dev::daemon::{request_of, Aim, Request};
use herdr_dev::docker::Service;
use herdr_dev::json::{Json, Num};
use herdr_dev::manifest::Project;
use herdr_dev::store::Store;
use herdr_dev::unit::{key, State, Status, DOCKER, LOCAL};

fn parsed_at(text: &str, manifest: &str) -> Project {
    Project::parse(text, manifest, "/home/tester").expect("manifest")
}

fn project(text: &str) -> Project {
    parsed_at(text, "/repos/harmony/.herdr-dev.toml")
}

fn store() -> Store {
    Store::at("/home/tester/.local/state/herdr-dev".to_string())
}

fn member<'a>(value: &'a Json, name: &str) -> &'a Json {
    match value {
        Json::Object(members) => members
            .iter()
            .find(|(key, _)| key == name)
            .map(|(_, value)| value)
            .unwrap_or_else(|| panic!("no `{name}` in {value:?}")),
        other => panic!("not an object: {other:?}"),
    }
}

fn text(value: &Json) -> &str {
    match value {
        Json::Str(text) => text,
        other => panic!("not a string: {other:?}"),
    }
}

fn texts(value: &Json) -> Vec<&str> {
    match value {
        Json::Array(items) => items.iter().map(text).collect(),
        other => panic!("not an array: {other:?}"),
    }
}

#[test]
fn a_unit_the_daemon_never_heard_of_is_down_rather_than_missing() {
    let project = project("[local.rails]\ncmd = [\"rails\", \"s\"]\n");
    let units = described(&project, None, &vec![], &store(), &vec![]);
    assert_eq!(units.len(), 1);
    assert_eq!(text(member(&units[0], "state")), "down");
    assert_eq!(text(member(&units[0], "unit")), "local-rails");
    assert_eq!(texts(member(&units[0], "cmd")), ["rails", "s"]);
}

#[test]
fn a_unit_listening_on_nothing_still_carries_an_empty_port_list() {
    let project = project("[local.rails]\ncmd = [\"rails\"]\n");
    let units = described(&project, None, &vec![], &store(), &vec![]);
    assert!(matches!(member(&units[0], "ports"), Json::Array(ports) if ports.is_empty()));
}

#[test]
fn a_docker_units_ports_are_whatever_the_status_carried() {
    // A status carries no ports of its own, so a service's list is the empty one every unit has.
    let project = project("[docker]\nnames = [\"db\"]\n");
    let statuses = vec![(key(DOCKER, "db"), Status::of(State::Up))];
    let units = described(&project, None, &statuses, &store(), &vec![]);
    assert!(matches!(member(&units[0], "ports"), Json::Array(ports) if ports.is_empty()));
    assert!(matches!(member(&units[0], "one_shot"), Json::Bool(false)));
    assert_eq!(text(member(&units[0], "state")), "up");
}

#[test]
fn an_included_repos_units_wear_its_name() {
    let project = project("[local.rails]\ncmd = [\"rails\"]\n");
    let units = described(&project, Some("player_server"), &vec![], &store(), &vec![]);
    assert_eq!(text(member(&units[0], "repo")), "player_server");
}

#[test]
fn a_local_units_record_lends_it_a_pid_and_its_log_path() {
    let project = project("[local.rails]\ncmd = [\"rails\"]\n");
    let pids = vec![(key(LOCAL, "rails"), 4242)];
    let units = described(&project, None, &vec![], &store(), &pids);
    assert!(matches!(member(&units[0], "pid"), Json::Num(Num::Pos(4242))));
    assert!(text(member(&units[0], "log")).ends_with("/local-rails.log"));
    assert_eq!(text(member(&units[0], "project")), "/repos/harmony");
}

#[test]
fn a_selector_reaches_a_unit_by_name_by_key_or_by_repo() {
    let focused = project("[local.rails]\ncmd = [\"rails\"]\n[docker]\nnames = [\"db\"]\n");
    let included = parsed_at("[local.rails]\ncmd = [\"rails\"]\n", "/repos/player_server/.herdr-dev.toml");
    let listed = vec![(None, &focused), (Some("player_server".to_string()), &included)];

    assert_eq!(pick(&listed, "db").expect("db").kind, DOCKER);
    let rails = pick(&listed, "player_server:rails").expect("rails");
    assert_eq!(listed[rails.at].1.root, "/repos/player_server");
    assert_eq!(pick(&listed, "player_server:local-rails").expect("rails").name, "rails");
}

#[test]
fn a_name_two_manifests_share_is_refused_with_both_spellings() {
    let focused = project("[local.rails]\ncmd = [\"rails\"]\n");
    let included = parsed_at("[local.rails]\ncmd = [\"rails\"]\n", "/repos/player_server/.herdr-dev.toml");
    let listed = vec![(None, &focused), (Some("player_server".to_string()), &included)];

    let complaint = pick(&listed, "rails").unwrap_err();
    assert!(complaint.contains("local-rails"), "{complaint}");
    assert!(complaint.contains("player_server:local-rails"), "{complaint}");
}

#[test]
fn a_local_and_a_docker_unit_of_one_name_are_told_apart_by_the_key() {
    let focused = project("[local.web]\ncmd = [\"rails\"]\n[docker]\nnames = [\"web\"]\n");
    let listed = vec![(None, &focused)];
    assert!(pick(&listed, "web").is_err());
    assert_eq!(pick(&listed, "local-web").expect("local").kind, LOCAL);
    assert_eq!(pick(&listed, "docker-web").expect("docker").kind, DOCKER);
    assert_eq!(
        pick(&listed, "docker-web"),
        Ok(Found { at: 0, kind: DOCKER, name: "web".to_string() })
    );
}

#[test]
fn a_selector_nothing_matches_names_itself() {
    let focused = project("[local.rails]\ncmd = [\"rails\"]\n");
    let complaint = pick(&vec![(None, &focused)], "sidekiq").unwrap_err();
    assert!(complaint.contains("sidekiq"), "{complaint}");
    assert_eq!(complaint, "no unit `sidekiq` in this project");
}

#[test]
fn a_verb_the_client_sends_is_the_verb_the_daemon_reads() {
    let project = project("[local.rails]\ncmd = [\"rails\", \"s\"]\n[docker]\nnames = [\"db\"]\none_shot = [\"db\"]\n");
    let line = request_line(7, "restart", verb_params(&project, &Target::Local(&project.local[0])));
    match request_of(Ok(line)) {
        Request::Verb { id, act, project: asked, aim } => {
            assert!(matches!(id, Json::Num(Num::Pos(7))));
            assert_eq!(act, Act::Restart);
            assert_eq!(asked.path, "/repos/harmony");
            assert_eq!(asked.name, "harmony");
            match aim {
                Aim::Local(spec) => {
                    assert_eq!(spec.name, "rails");
                    assert_eq!(spec.cmd, vec!["rails".to_string(), "s".to_string()]);
                    assert_eq!(spec.cwd, "/repos/harmony");
                }
                other => panic!("not a local unit: {other:?}"),
            }
        }
        other => panic!("not a verb: {other:?}"),
    }
    let line = request_line(8, "status", status_params(&project));
    match request_of(Ok(line)) {
        Request::Status { services, .. } => {
            assert_eq!(services, vec![Service { name: "db".to_string(), one_shot: true }]);
        }
        other => panic!("not a status read: {other:?}"),
    }
}

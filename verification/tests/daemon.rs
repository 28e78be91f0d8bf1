use herdr_dev::daemon::{failure, handshake, reply, request_of, serve, Aim, Ledger, Outcome, Request, PROTOCOL};
use herdr_dev::docker::Service;
use herdr_dev::json::{Json, Num};
use serde_json::Value;

fn tree(value: &Value) -> Json {
    match value {
        Value::Null => Json::Null,
        Value::Bool(b) => Json::Bool(*b),
        Value::Number(n) => match (n.as_u64(), n.as_i64()) {
            (Some(u), _) => Json::Num(Num::Pos(u)),
            (None, Some(i)) => Json::Num(Num::Neg(i)),
            _ => Json::Num(Num::Float),
        },
        Value::String(s) => Json::Str(s.clone()),
        Value::Array(items) => Json::Array(items.iter().map(tree).collect()),
        Value::Object(members) => Json::Object(
            members
                .iter()
                .map(|(key, value)| (key.clone(), tree(value)))
                .collect(),
        ),
    }
}

fn asked(line: &str) -> Request {
    request_of(
        serde_json::from_str::<Value>(line)
            .map(|value| tree(&value))
            .map_err(|error| error.to_string()),
    )
}

fn refused(request: &Request) -> (&Json, &str, &str) {
    match request {
        Request::Refused { id, code, message } => (id, code, message.as_str()),
        other => panic!("not refused: {other:?}"),
    }
}


#[test]
fn two_clients_leaving_one_at_a_time_do_not_start_the_clock_early() {
    let mut ledger = Ledger::new(0);
    ledger.arrive();
    ledger.arrive();
    ledger.depart(0);
    assert!(!ledger.owned_nothing_for(0, 0));
    ledger.depart(0);
    assert!(ledger.owned_nothing_for(0, 0));
}

#[test]
fn a_client_holds_the_idle_window_open_and_releasing_it_starts_the_clock() {
    let window = 60;
    let mut ledger = Ledger::new(0);
    assert!(ledger.owned_nothing_for(window, 80));
    ledger.arrive();
    assert!(!ledger.owned_nothing_for(window, 160));
    ledger.depart(160);
    assert!(!ledger.owned_nothing_for(window, 160));
    assert!(ledger.owned_nothing_for(window, 240));
}

#[test]
fn a_signal_ends_the_loop_and_idleness_only_once_nothing_runs() {
    let ledger = Ledger::new(0);
    assert_eq!(serve(&ledger, true, true, 10, 0), Some(Outcome::Signalled));
    assert_eq!(serve(&ledger, false, true, 10, 100), None);
    assert_eq!(serve(&ledger, false, false, 10, 100), Some(Outcome::Idle));
    assert_eq!(serve(&ledger, false, false, 10, 5), None);
}

#[test]
fn an_unknown_method_is_refused_by_name_rather_than_dropped() {
    let request = asked("{\"id\": 7, \"method\": \"levitate\"}");
    let (id, code, message) = refused(&request);
    assert_eq!(code, "unknown_method");
    assert!(message.contains("levitate"));
    assert!(matches!(id, Json::Num(Num::Pos(7))));
}

#[test]
fn a_line_that_is_not_a_request_still_gets_a_reply() {
    assert_eq!(refused(&asked("{not json")).1, "malformed");
    assert_eq!(refused(&asked("{\"id\": 1}")).1, "malformed");
}

#[test]
fn a_verb_without_a_kind_is_refused_rather_than_taken_for_either_half() {
    for unit in ["{\"name\": \"db\"}", "{\"name\": \"db\", \"kind\": \"container\"}"] {
        let line = format!(
            "{{\"id\": 1, \"method\": \"start\", \"params\": {{\"project\": {{\"path\": \"/repos/harmony\"}}, \"unit\": {unit}}}}}"
        );
        assert_eq!(refused(&asked(&line)).1, "malformed", "{line}");
    }
}

#[test]
fn a_status_read_is_told_which_services_it_is_about_and_which_of_them_are_one_shots() {
    let line = "{\"id\": 2, \"method\": \"status\", \"params\": {\"project\": {\"path\": \"/repos/harmony\"}, \"docker\": [{\"name\": \"db\"}, {\"name\": \"seed\", \"one_shot\": true}]}}";
    match asked(line) {
        Request::Status { project, services, .. } => {
            assert_eq!(project.path, "/repos/harmony");
            assert_eq!(
                services,
                vec![
                    Service { name: "db".into(), one_shot: false },
                    Service { name: "seed".into(), one_shot: true },
                ]
            );
        }
        other => panic!("not a status read: {other:?}"),
    }
    match asked("{\"id\": 3, \"method\": \"status\", \"params\": {\"project\": {\"path\": \"/p\"}}}") {
        Request::Status { services, .. } => assert!(services.is_empty()),
        other => panic!("not a status read: {other:?}"),
    }
}

#[test]
fn a_well_formed_verb_names_its_project_and_the_half_it_lands_on() {
    let line = "{\"id\": \"v\", \"method\": \"restart\", \"params\": {\"project\": {\"path\": \"/repos/harmony\", \"name\": \"harmony\"}, \"unit\": {\"kind\": \"docker\", \"name\": \"db\", \"one_shot\": true}}}";
    match asked(line) {
        Request::Verb { project, aim, .. } => {
            assert_eq!(project.path, "/repos/harmony");
            assert_eq!(project.name, "harmony");
            assert_eq!(aim, Aim::Docker(Service { name: "db".into(), one_shot: true }));
            assert_eq!(aim.code(), "docker");
        }
        other => panic!("not a verb: {other:?}"),
    }
    assert!(matches!(asked("{\"method\": \"handshake\"}"), Request::Handshake { id: Json::Null }));
}

#[test]
fn a_handshake_carries_this_build_its_protocol_and_the_daemon_pid() {
    let shake = handshake("1.2.3", 4242);
    let expected = Json::Object(vec![
        ("version".to_string(), Json::Str("1.2.3".to_string())),
        ("protocol".to_string(), Json::Num(Num::Pos(PROTOCOL))),
        ("pid".to_string(), Json::Num(Num::Pos(4242))),
    ]);
    assert_eq!(format!("{shake:?}"), format!("{expected:?}"));
    let answered = reply(Json::Str("t1".to_string()), shake);
    match answered {
        Json::Object(members) => {
            assert_eq!(members[0].0, "id");
            assert_eq!(members[1].0, "result");
        }
        other => panic!("not an object: {other:?}"),
    }
}

#[test]
fn a_refusal_carries_its_code_and_its_sentence() {
    let refusal = failure(Json::Num(Num::Pos(9)), "spawn", "no such file");
    let expected = Json::Object(vec![
        ("id".to_string(), Json::Num(Num::Pos(9))),
        (
            "error".to_string(),
            Json::Object(vec![
                ("code".to_string(), Json::Str("spawn".to_string())),
                ("message".to_string(), Json::Str("no such file".to_string())),
            ]),
        ),
    ]);
    assert_eq!(format!("{refusal:?}"), format!("{expected:?}"));
}

#[test]
fn a_request_line_that_is_not_json_is_refused_as_malformed() {
    match herdr_dev::daemon::request_line("{not json") {
        Request::Refused { id, code, .. } => {
            assert!(matches!(id, Json::Null));
            assert_eq!(code, "malformed");
        }
        other => panic!("{other:?}"),
    }
    assert!(matches!(
        herdr_dev::daemon::request_line(r#"{"id":"a","method":"handshake"}"#),
        Request::Handshake { .. }
    ));
}

#[test]
fn a_blank_reply_line_is_no_reading_and_a_bad_one_says_why() {
    assert!(herdr_dev::json::parsed_line("  \n").is_none());
    assert!(matches!(herdr_dev::json::parsed_line("{"), Some(Err(_))));
    match herdr_dev::json::parsed_line("[1,-2]") {
        Some(Ok(Json::Array(items))) => {
            assert!(matches!(items.as_slice(), [Json::Num(Num::Pos(1)), Json::Num(Num::Neg(-2))]));
        }
        other => panic!("{other:?}"),
    }
}

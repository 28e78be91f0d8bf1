use herdr_dev::json::Json;
use herdr_dev::unit::{elapsed, key, name_of, Claim, Exit, State, Status, DOCKER, LOCAL};

#[test]
fn a_unit_key_carries_its_kind_so_a_local_and_a_docker_name_may_collide() {
    assert_eq!(key(LOCAL, "vite"), "local-vite");
    assert_eq!(key(DOCKER, "vite"), "docker-vite");
}

#[test]
fn a_key_yields_its_name_only_to_the_kind_that_owns_it() {
    assert_eq!(name_of("local-vite", LOCAL), Some("vite"));
    assert_eq!(name_of("local-vite", DOCKER), None);
    assert_eq!(name_of("docker-db", DOCKER), Some("db"));
    assert_eq!(name_of("localish-vite", LOCAL), None);
}

#[test]
fn every_state_survives_a_round_trip_through_its_label() {
    for state in [
        State::Down,
        State::Starting,
        State::Up,
        State::Done,
        State::Dead,
        State::Unknown,
    ] {
        assert_eq!(State::read(state.label()), Some(state));
    }
    assert_eq!(State::read("crashed"), None);
}

#[test]
fn an_uptime_reads_shortest_first_and_never_outgrows_its_column() {
    assert_eq!(elapsed(9_000), "9s");
    assert_eq!(elapsed(724_000), "12m04s");
    assert_eq!(elapsed(2_460_000), "41m00s");
    assert_eq!(elapsed((3600 * 3 + 240) * 1000), "3h04m");
    assert_eq!(elapsed((86400 * 2 + 3600 * 5) * 1000), "2d05h");
    assert!(
        elapsed(86400 * 99 * 1000).chars().count() <= 9,
        "the timing column is nine wide"
    );
}

#[test]
fn a_running_unit_shows_its_uptime_and_anything_else_shows_how_it_ended() {
    let up = Status {
        state: State::Up,
        uptime: Some(61_000),
        exit: Some(Exit::Code(1)),
        held: None,
        note: None,
    };
    assert_eq!(up.timing(), "1m01s");

    let dead = Status {
        state: State::Dead,
        uptime: None,
        exit: Some(Exit::Signal(9)),
        held: None,
        note: None,
    };
    assert_eq!(dead.timing(), "signal 9");
    assert_eq!(Status::of(State::Down).timing(), "");
}

#[test]
fn a_held_unit_names_the_holder_and_the_pid() {
    let claim = Claim {
        project: "harmony-wt2".into(),
        pid: 51234,
    };
    assert_eq!(claim.label(), "held by harmony-wt2, pid 51234");
}

#[test]
fn every_state_has_a_glyph_of_its_own() {
    let glyphs: Vec<&str> = [
        State::Down,
        State::Starting,
        State::Up,
        State::Done,
        State::Dead,
        State::Unknown,
    ]
    .iter()
    .map(|state| state.glyph())
    .collect();
    for (i, a) in glyphs.iter().enumerate() {
        for b in &glyphs[i + 1..] {
            assert_ne!(a, b);
        }
    }
    assert_eq!(Exit::Code(-1).label(), "exit -1");
}

#[test]
fn a_status_survives_the_wire_whole() {
    let statuses = [
        Status {
            state: State::Up,
            uptime: Some(41_000),
            exit: None,
            held: None,
            note: Some("unhealthy".into()),
        },
        Status {
            state: State::Dead,
            uptime: None,
            exit: Some(Exit::Code(7)),
            held: Some(Claim {
                project: "harmony-wt2".into(),
                pid: 51234,
            }),
            note: None,
        },
        Status {
            state: State::Down,
            uptime: None,
            exit: Some(Exit::Signal(15)),
            held: None,
            note: None,
        },
    ];
    for status in statuses {
        assert_eq!(Status::read(&status.to_value()), Ok(status.clone()));
    }
}

#[test]
fn a_status_without_a_state_is_refused_rather_than_guessed() {
    assert!(Status::read(&Json::Object(vec![])).is_err());
    assert!(Status::read(&Json::Object(vec![(
        "state".to_string(),
        Json::Str("wedged".to_string())
    )]))
    .is_err());
}

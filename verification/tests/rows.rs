use herdr_dev::manifest::Project;
use herdr_dev::rows::{contract_home, title, unit_rows, Row, UNKNOWN_GLYPH};
use herdr_dev::unit::{self, Claim, Exit, State, Status};
use herdr_dev::view::Owner;

const MANIFEST: &str = "/repos/harmony/.herdr-dev.toml";
const HOME: &str = "/home/tester";

fn project(text: &str) -> Project {
    Project::parse(text, MANIFEST, HOME).unwrap_or_else(|error| panic!("{}", error.message()))
}

fn nothing() -> Vec<(String, Status)> {
    Vec::new()
}

fn rows(project: &Project, statuses: &Vec<(String, Status)>) -> Vec<Row> {
    unit_rows(project, statuses, Owner::Focused, false)
}

fn status(state: State, uptime: Option<u64>, exit: Option<Exit>, held: Option<Claim>, note: Option<&str>) -> Status {
    Status {
        state,
        uptime,
        exit,
        held,
        note: note.map(str::to_string),
    }
}

#[test]
fn every_unit_gets_a_row_with_all_six_columns_filled_or_blank() {
    let rows = rows(
        &project(
            "[local.rails]\ncmd = [\"rails\", \"s\"]\n\
             [docker]\nnames = [\"db\"]\n[docker.notes]\ndb = \"needs migrate\"\n\
             [includes.player_server]\npath = \"/repos/player_server\"\n",
        ),
        &nothing(),
    );
    assert_eq!(rows.len(), 2, "an include is not a unit of this manifest");
    assert_eq!(
        (
            rows[0].name.as_str(),
            rows[0].kind,
            rows[0].note.as_str(),
            rows[0].glyph
        ),
        ("db", "docker", "needs migrate", UNKNOWN_GLYPH)
    );
    assert_eq!((rows[1].name.as_str(), rows[1].kind), ("rails", "local"));
    assert!(rows.iter().all(|row| !row.repo && !row.indent));
}

#[test]
fn a_local_unit_the_daemon_has_never_run_is_down_while_a_docker_row_stays_blank() {
    let rows = rows(
        &project("[local.rails]\ncmd = [\"rails\", \"s\"]\n[docker]\nnames = [\"db\"]\n"),
        &nothing(),
    );
    assert_eq!((rows[0].state.as_str(), rows[0].timing.as_str()), ("", ""));
    assert_eq!(rows[1].state, "down");
    assert_eq!(rows[1].timing, "");
}

#[test]
fn a_running_unit_shows_its_uptime_and_a_dead_one_what_it_exited_with() {
    let statuses = vec![
        (
            unit::key(unit::LOCAL, "rails"),
            status(State::Up, Some(724_000), None, None, None),
        ),
        (
            unit::key(unit::LOCAL, "vite"),
            status(State::Dead, None, Some(Exit::Code(1)), None, None),
        ),
    ];
    let rows = rows(
        &project("[local.rails]\ncmd = [\"rails\", \"s\"]\n[local.vite]\ncmd = [\"bin/vite\"]\n"),
        &statuses,
    );
    assert_eq!(
        (
            rows[0].state.as_str(),
            rows[0].timing.as_str(),
            rows[0].glyph
        ),
        ("up", "12m04s", State::Up.glyph())
    );
    assert_eq!(
        (
            rows[1].state.as_str(),
            rows[1].timing.as_str(),
            rows[1].glyph
        ),
        ("dead", "exit 1", State::Dead.glyph())
    );
}

#[test]
fn a_unit_another_project_holds_says_so_in_the_note_column() {
    let statuses = vec![(
        unit::key(unit::LOCAL, "vite"),
        status(
            State::Down,
            None,
            None,
            Some(Claim {
                project: "harmony-wt2".into(),
                pid: 51234,
            }),
            None,
        ),
    )];
    let rows = rows(&project("[local.vite]\ncmd = [\"bin/vite\"]\n"), &statuses);
    assert_eq!(rows[0].note, "held by harmony-wt2, pid 51234");
}

#[test]
fn a_docker_row_wears_what_compose_said_and_its_own_note_outranks_the_manifests() {
    let statuses = vec![
        (
            unit::key(unit::DOCKER, "db"),
            status(State::Up, Some(2_460_000), None, None, Some("unhealthy")),
        ),
        (
            unit::key(unit::DOCKER, "minio_init"),
            status(State::Done, None, Some(Exit::Code(0)), None, None),
        ),
    ];
    let rows = rows(
        &project(
            "[docker]\nnames = [\"db\", \"minio_init\"]\none_shot = [\"minio_init\"]\n                 [docker.notes]\ndb = \"needs migrate\"\nminio_init = \"seeds the bucket\"\n",
        ),
        &statuses,
    );
    assert_eq!(
        (
            rows[0].state.as_str(),
            rows[0].timing.as_str(),
            rows[0].note.as_str()
        ),
        ("up", "41m00s", "unhealthy")
    );
    assert_eq!(
        (
            rows[1].state.as_str(),
            rows[1].timing.as_str(),
            rows[1].note.as_str()
        ),
        ("done", "exit 0", "seeds the bucket")
    );
}

#[test]
fn a_docker_row_nobody_could_read_shows_unknown_and_how_old_the_last_reading_is() {
    let statuses = vec![(
        unit::key(unit::DOCKER, "db"),
        status(
            State::Unknown,
            None,
            None,
            None,
            Some("stale: up 41m00s, seen 2m30s ago"),
        ),
    )];
    let rows = rows(
        &project("[docker]\nnames = [\"db\"]\n[docker.notes]\ndb = \"needs migrate\"\n"),
        &statuses,
    );
    assert_eq!(rows[0].state, "unknown");
    assert_eq!(rows[0].glyph, State::Unknown.glyph());
    assert_eq!(
        rows[0].timing, "",
        "a stale row never pretends to an uptime"
    );
    assert_eq!(rows[0].note, "stale: up 41m00s, seen 2m30s ago");
}

#[test]
fn a_broken_unit_carries_its_complaint_in_the_note_column() {
    let rows = rows(&project("[local.rails]\ncwd = \"/tmp\"\n"), &nothing());
    assert_eq!(rows.len(), 1);
    assert!(rows[0].note.contains("cmd"), "{:?}", rows[0].note);
}

#[test]
fn a_hidden_service_has_no_row() {
    let rows = rows(
        &project("[docker]\nnames = [\"db\"]\nhidden = [\"caddy\"]\n"),
        &nothing(),
    );
    assert_eq!(rows.len(), 1);
}

#[test]
fn the_title_is_the_project_root_with_home_contracted() {
    let project = Project::parse("", "/home/tester/projects/tds/harmony/.herdr-dev.toml", HOME)
        .unwrap_or_else(|error| panic!("{}", error.message()));
    assert_eq!(title(&project, HOME), "~/projects/tds/harmony");
    assert_eq!(contract_home("/home/testers/x", HOME), "/home/testers/x");
    assert_eq!(contract_home("/home/tester", HOME), "~/");
    assert_eq!(contract_home("/srv/x", ""), "/srv/x");
}

#[test]
fn the_last_word_the_daemon_said_about_a_unit_is_the_one_a_row_wears() {
    let statuses = vec![
        (unit::key(unit::LOCAL, "rails"), status(State::Starting, None, None, None, None)),
        (unit::key(unit::LOCAL, "rails"), status(State::Up, Some(5_000), None, None, None)),
    ];
    let rows = rows(&project("[local.rails]\ncmd = [\"rails\"]\n"), &statuses);
    assert_eq!((rows[0].state.as_str(), rows[0].timing.as_str()), ("up", "5s"));
}

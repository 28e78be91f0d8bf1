use herdr_dev::store::{hex, project_key, Cache, Identity, Record, Store};
use herdr_dev::unit::{Exit, State};

#[test]
fn two_checkouts_of_one_repo_get_readable_keys_that_do_not_collide() {
    let one = project_key("/repos/harmony");
    let two = project_key("/repos/harmony-wt2/harmony");
    assert!(one.starts_with("harmony-"), "{one}");
    assert_ne!(one, two);
    assert_eq!(one.len(), "harmony-".len() + 8);
    assert_eq!(project_key("/repos/harmony"), one);
    let identity = Identity {
        path: "/repos/harmony".to_string(),
        name: "harmony".to_string(),
    };
    assert_eq!(identity.key(), one);
}

#[test]
fn a_key_is_named_after_the_directory_and_the_first_hex_of_its_digest() {
    // SHA-256 of the empty string starts e3b0c442.
    assert_eq!(project_key(""), "project-e3b0c442");
    assert_eq!(hex(&[0x00, 0xab, 0x7f]), "00ab7f");
}

#[test]
fn a_record_survives_a_round_trip_through_its_file() {
    let read = Record::read(
        "state = \"up\"\npid = 4242\nstarted_at = 1787087864.5\nps_start = \"Mon Aug 18 17:32:05 2026\"\n\
         cmd = [\"bin/vite\", \"dev\"]\ncwd = \"/repos/harmony\"\n",
    ).expect("toml");
    assert_eq!(read.pid, Some(4242));
    assert_eq!(read.state, State::Up);
    assert_eq!(read.cmd, vec!["bin/vite".to_string(), "dev".to_string()]);
    assert_eq!(read.ps_start.as_deref(), Some("Mon Aug 18 17:32:05 2026"));
    assert_eq!(read.started_at, Some(1_787_087_864_500));
    assert_eq!(read.cwd, "/repos/harmony");
    assert_eq!(read.exit, None);
    assert_eq!(read.uptime(1_787_087_865_500), Some(1_000));
    assert_eq!(read.uptime(1_787_087_864_000), None);
}

#[test]
fn an_exit_status_outlives_the_state_it_was_recorded_with() {
    let crashed = Record::read("state = \"dead\"\nexit_code = 7\n").expect("toml");
    assert_eq!(crashed.state, State::Dead);
    assert_eq!(crashed.exit, Some(Exit::Code(7)));
    assert_eq!(crashed.pid, None);
    let signalled = Record::read("state = \"dead\"\nsignal = 9\n").expect("toml");
    assert_eq!(signalled.exit, Some(Exit::Signal(9)));
    // An exit code wins over a signal, as it was written last.
    let both = Record::read("exit_code = 1\nsignal = 9\n").expect("toml");
    assert_eq!(both.exit, Some(Exit::Code(1)));
}

#[test]
fn a_record_that_says_nothing_readable_reads_as_unknown_and_empty() {
    let read = Record::read("state = \"wedged\"\npid = \"4242\"\ncmd = [\"a\", 3, \"b\"]\n").expect("toml");
    assert_eq!(read.state, State::Unknown);
    assert_eq!(read.pid, None);
    assert_eq!(read.cmd, vec!["a".to_string(), "b".to_string()]);
    assert_eq!(read.cwd, "");
    assert_eq!(Record::read("").expect("toml"), Record { state: State::Unknown, ..Record::stopped() });
}

#[test]
fn a_cache_needs_the_time_it_was_seen_and_keeps_the_rest_verbatim() {
    let cache = Cache::read("state = \"running\"\nhealth = \"healthy\"\nexit_code = 0\nseen_at = 1787087864.0\nuptime = 41.5\n")
    .expect("a cache");
    assert_eq!(cache.state, "running");
    assert_eq!(cache.health, "healthy");
    assert_eq!(cache.seen_at, 1_787_087_864_000);
    assert_eq!(cache.uptime, Some(41_500));
    assert_eq!(cache.age(1_787_087_865_000), 1_000);
    assert!(Cache::read("state = \"running\"\n").is_none());
    let bare = Cache::read("seen_at = 1.0\n").expect("a cache");
    assert_eq!((bare.state.as_str(), bare.exit_code, bare.uptime), ("", 0, None));
}

#[test]
fn a_slot_lives_under_the_projects_key() {
    let store = Store::at("/state".to_string());
    let identity = Identity {
        path: "/repos/harmony".to_string(),
        name: "harmony".to_string(),
    };
    let slot = store.slot(&identity);
    assert_eq!(slot.dir(), format!("/state/projects/{}", project_key("/repos/harmony")));
    assert_eq!(slot.log_path("local-vite"), format!("{}/logs/local-vite.log", slot.dir()));
    assert_eq!(slot.previous_log_path("local-vite"), format!("{}/logs/local-vite.log.1", slot.dir()));
}

#[test]
fn a_slots_identity_needs_a_path_and_takes_its_name_when_given() {
    assert_eq!(
        Identity::read("path = \"/repos/harmony\"\nname = \"harmony\"\n"),
        Some(Identity { path: "/repos/harmony".to_string(), name: "harmony".to_string() })
    );
    assert_eq!(
        Identity::read("path = \"/repos/x\"\n"),
        Some(Identity { path: "/repos/x".to_string(), name: String::new() })
    );
    assert_eq!(Identity::read("name = \"harmony\"\n"), None);
}

#[test]
fn a_float_counts_its_seconds_as_written_and_anything_else_is_no_time() {
    let at = |text: &str| Record::read(&format!("started_at = {text}\n")).expect("toml").started_at;
    assert_eq!(at("1_000.25"), Some(1_000_250));
    assert_eq!(at("0.0015"), Some(1));
    assert_eq!(at("+2.5"), Some(2_500));
    assert_eq!(at("1e3"), None);
    assert_eq!(at("-1.0"), None);
    assert_eq!(at("inf"), None);
    assert_eq!(at("\"3.0\""), None);
}

#[test]
fn a_file_that_is_not_toml_reads_as_nothing() {
    assert_eq!(Record::read("state = "), None);
    assert_eq!(Cache::read("seen_at = [1.0"), None);
    assert_eq!(Identity::read("path = "), None);
}

#[test]
fn a_just_spawned_unit_is_recorded_up_with_its_command_and_place() {
    let record = Record::running(
        4242,
        1_000,
        Some("Mon Aug 18 17:32:05 2026".to_string()),
        vec!["bin/vite".to_string()],
        "/repos/harmony".to_string(),
    );
    assert_eq!(record.state, State::Up);
    assert_eq!(record.pid, Some(4242));
    assert_eq!(record.started_at, Some(1_000));
    assert_eq!(record.exit, None);
    assert_eq!(record.cmd, vec!["bin/vite"]);
}

#[test]
fn a_slot_is_named_by_its_projects_key() {
    let who = Identity {
        path: "/repos/harmony".to_string(),
        name: "harmony".to_string(),
    };
    let store = Store::at("/home/tester/.local/state/herdr-dev".to_string());
    assert_eq!(store.slot(&who).key(), who.key());
    assert_eq!(who.key().chars().count(), "harmony".len() + 9);
}

#[test]
fn a_path_ending_in_a_dot_is_named_as_the_directory_it_stands_for() {
    assert!(project_key("/repos/harmony/.").starts_with("harmony-"));
    assert!(project_key("/repos/harmony/").starts_with("harmony-"));
    assert!(project_key(".").starts_with("project-"));
    assert!(project_key("/").starts_with("project-"));
    assert!(project_key("/repos/..").starts_with("project-"));
}

use herdr_dev::cli::Act;
use herdr_dev::docker::{
    answer, clip, complaint, inspect_command, instant, logs_command, observed_status, parse,
    parse_started, ps, ps_command, stale, statuses, stop_command, up_command, Container, Service,
    DOCKER, LOG_TAIL, REASON_WIDTH,
};
use herdr_dev::unit::Status;
use herdr_dev::store::Cache;
use herdr_dev::unit::{Exit, State};

const NOW: u64 = 1_787_087_864_000;

/// `docker compose ps --all --format json` over a throwaway project, one line per awkward case, the
/// `Labels` and `Status` prose kept as compose writes it, including the fields nothing here reads.
const RECORDED: &str = r#"{"Command":"\"sh -c 'exit 7'\"","CreatedAt":"2026-08-18 23:17:40 +0200 CEST","ExitCode":7,"Health":"","ID":"0b1c","Image":"alpine:3","Labels":"com.docker.compose.project=herdrdev05probe,com.docker.compose.service=boom","Name":"herdrdev05probe-boom-1","Project":"herdrdev05probe","RunningFor":"2 minutes ago","Service":"boom","State":"exited","Status":"Exited (7) About a minute ago"}
{"Command":"\"sleep infinity\"","CreatedAt":"2026-08-18 23:17:40 +0200 CEST","ExitCode":0,"Health":"healthy","ID":"1c2d","Image":"alpine:3","Labels":"com.docker.compose.project=herdrdev05probe,com.docker.compose.service=checked","Name":"herdrdev05probe-checked-1","Project":"herdrdev05probe","RunningFor":"2 minutes ago","Service":"checked","State":"running","Status":"Up About a minute (healthy)"}
{"Command":"\"true\"","CreatedAt":"2026-08-18 23:17:40 +0200 CEST","ExitCode":0,"Health":"","ID":"2d3e","Image":"alpine:3","Labels":"com.docker.compose.project=herdrdev05probe,com.docker.compose.service=never","Name":"herdrdev05probe-never-1","Project":"herdrdev05probe","RunningFor":"2 minutes ago","Service":"never","State":"created","Status":"Created"}
{"Command":"\"true\"","CreatedAt":"2026-08-18 23:17:40 +0200 CEST","ExitCode":0,"Health":"","ID":"3e4f","Image":"alpine:3","Labels":"com.docker.compose.project=herdrdev05probe,com.docker.compose.service=oneshot","Name":"herdrdev05probe-oneshot-1","Project":"herdrdev05probe","RunningFor":"2 minutes ago","Service":"oneshot","State":"exited","Status":"Exited (0) About a minute ago"}
{"Command":"\"sleep infinity\"","CreatedAt":"2026-08-18 23:17:40 +0200 CEST","ExitCode":0,"Health":"","ID":"4f50","Image":"alpine:3","Labels":"com.docker.compose.project=herdrdev05probe,com.docker.compose.service=plain","Name":"herdrdev05probe-plain-1","Project":"herdrdev05probe","RunningFor":"2 minutes ago","Service":"plain","State":"running","Status":"Up About a minute"}
{"Command":"\"sleep infinity\"","CreatedAt":"2026-08-18 23:17:40 +0200 CEST","ExitCode":0,"Health":"unhealthy","ID":"5061","Image":"alpine:3","Labels":"com.docker.compose.project=herdrdev05probe,com.docker.compose.service=sick","Name":"herdrdev05probe-sick-1","Project":"herdrdev05probe","RunningFor":"2 minutes ago","Service":"sick","State":"running","Status":"Up About a minute (unhealthy)"}
{"Command":"\"sleep infinity\"","CreatedAt":"2026-08-18 23:17:40 +0200 CEST","ExitCode":0,"Health":"starting","ID":"6172","Image":"alpine:3","Labels":"com.docker.compose.project=herdrdev05probe,com.docker.compose.service=slow","Name":"herdrdev05probe-slow-1","Project":"herdrdev05probe","RunningFor":"2 minutes ago","Service":"slow","State":"running","Status":"Up About a minute (health: starting)"}
"#;

/// What compose printed, read as the daemon reads it.
fn parsed(text: &str) -> Vec<Container> {
    parse(text)
}

fn observed(service: &str, one_shot: bool) -> Status {
    let containers = parsed(RECORDED);
    let found = containers.iter().find(|container| container.service == service);
    observed_status(found, one_shot)
}

fn container(service: &str, state: &str, health: &str, exit_code: i32) -> Container {
    Container {
        service: service.to_string(),
        name: format!("p-{service}-1"),
        state: state.to_string(),
        health: health.to_string(),
        exit_code,
    }
}

#[test]
fn a_start_time_in_any_other_shape_yields_no_uptime_rather_than_a_wrong_one() {
    assert!(instant("2026-08-18T21:17:44Z").is_some());
    assert!(instant("0001-01-01T00:00:00Z").is_none());
    assert!(instant("2026-08-18 21:17:44 +0200 CEST").is_none());
    assert!(instant("").is_none());
    assert!(parse_started("2 weeks ago").is_empty());
}

#[test]
fn a_docker_that_cannot_be_reached_shows_unknown_and_says_why() {
    let reason = "failed to connect to the docker API at unix:///var/run/docker.sock";
    let status = stale(None, false, reason, NOW);
    assert_eq!(status.state, State::Unknown);
    assert!(
        status
            .note
            .as_deref()
            .is_some_and(|note| note.starts_with("failed to connect")),
        "{status:?}"
    );
    assert_eq!(status.uptime, None);
}

#[test]
fn a_cached_row_is_shown_marked_stale_rather_than_pretended_live() {
    let cache = Cache {
        state: "running".to_string(),
        health: "healthy".to_string(),
        exit_code: 0,
        seen_at: NOW - 150_000,
        uptime: Some(2_460_000),
    };
    let status = stale(Some(&cache), false, "docker is not answering", NOW);
    assert_eq!(status.state, State::Unknown);
    assert_eq!(status.uptime, None, "a cached uptime must not tick on");
    assert_eq!(status.timing(), "");
    assert_eq!(
        status.note.as_deref(),
        Some("stale: up 41m00s, seen 2m30s ago")
    );
}

#[test]
fn a_cached_one_shot_stays_done_while_docker_is_away() {
    let cache = Cache {
        state: "exited".to_string(),
        health: String::new(),
        exit_code: 0,
        seen_at: NOW - 30_000,
        uptime: None,
    };
    let note = stale(Some(&cache), true, "docker is not answering", NOW)
        .note
        .expect("a stale note");
    assert!(note.starts_with("stale: done exit 0, seen 30s ago"), "{note}");
}

#[test]
fn a_service_absent_when_last_read_has_nothing_to_be_stale_about() {
    let cache = Cache {
        state: String::new(),
        health: String::new(),
        exit_code: 0,
        seen_at: NOW,
        uptime: None,
    };
    let note = stale(Some(&cache), false, "docker is not answering", NOW)
        .note
        .expect("a note");
    assert_eq!(note, "docker is not answering");
}

#[test]
fn a_reason_longer_than_the_note_column_is_clipped_rather_than_left_to_run() {
    let long = "x".repeat(200);
    let clipped = clip(&long);
    assert_eq!(clipped.chars().count(), REASON_WIDTH + 1);
    assert!(clipped.ends_with('…'));
    assert_eq!(clip("short"), "short");
}

#[test]
fn every_container_is_read_by_state_health_and_code() {
    let up = observed_status(Some(&container("plain", "running", "", 0)), false);
    assert_eq!((up.state, up.note), (State::Up, None));
    let sick = observed_status(Some(&container("sick", "running", "unhealthy", 0)), false);
    assert_eq!((sick.state, sick.note.as_deref()), (State::Up, Some("unhealthy")));
    assert_eq!(
        observed_status(Some(&container("slow", "running", "starting", 0)), false).state,
        State::Starting
    );
    let done = observed_status(Some(&container("oneshot", "exited", "", 0)), true);
    assert_eq!((done.state, done.timing().as_str()), (State::Done, "exit 0"));
    let down = observed_status(Some(&container("oneshot", "exited", "", 0)), false);
    assert_eq!((down.state, down.timing().as_str()), (State::Down, "exit 0"));
    let boom = observed_status(Some(&container("boom", "exited", "", 7)), false);
    assert_eq!(boom.exit, Some(Exit::Code(7)));
    let created = observed_status(Some(&container("never", "created", "", 0)), false);
    assert_eq!((created.state, created.note.as_deref()), (State::Down, Some("created")));
    let absent = observed_status(None, false);
    assert_eq!((absent.state, absent.timing().as_str(), absent.note), (State::Down, "", None));
}

#[test]
fn a_service_we_stopped_reads_as_down_and_never_as_dead() {
    // What `compose stop` leaves: exit 137, which no state may read as a crash.
    let stopped = r#"{"Command":"\"sleep 600\"","CreatedAt":"2026-08-18 23:17:40 +0200 CEST","ExitCode":137,"Health":"","ID":"9a2f","Image":"alpine:3","Labels":"com.docker.compose.project=herdrdev05probe,com.docker.compose.service=db","Name":"herdrdev05probe-db-1","Project":"herdrdev05probe","RunningFor":"2 minutes ago","Service":"db","State":"exited","Status":"Exited (137) 5 seconds ago"}"#;
    let containers = parse(stopped);
    assert_eq!(containers.len(), 1);
    let status = observed_status(containers.first(), false);
    assert_eq!(status.state, State::Down);
    assert_eq!(status.timing(), "exit 137");
    for one_shot in [true, false] {
        for container in parse(RECORDED).iter().chain(containers.iter()) {
            assert_ne!(observed_status(Some(container), one_shot).state, State::Dead, "{container:?}");
        }
    }
}

#[test]
fn uptime_comes_from_the_start_time_docker_inspect_reports() {
    let recorded = "/herdrdev05probe-plain-1 2026-08-18T21:17:44.678150491Z\n\
                    /herdrdev05probe-checked-1 2026-08-18T21:17:44.644433581Z\n";
    let started = parse_started(recorded);
    assert_eq!(started.len(), 2);
    assert_eq!(started[0], ("herdrdev05probe-plain-1".to_string(), 1_787_087_864));
    assert!(started[1].1 <= started[0].1);
    assert!(inspect_command(&vec!["p-db-1".to_string()])
        .args
        .contains(&"{{.Name}} {{.State.StartedAt}}".to_string()));
}

#[test]
fn a_row_per_declared_service_from_one_reading() {
    let services = vec![
        Service { name: "db".into(), one_shot: false },
        Service { name: "seed".into(), one_shot: true },
        Service { name: "ghost".into(), one_shot: false },
    ];
    let observed = vec![
        container("db", "running", "healthy", 0),
        container("seed", "exited", "", 0),
    ];
    let started = vec![("p-db-1".to_string(), 1_787_087_000)];
    let rows = statuses(&services, &observed, &started, 1_787_087_864_000);
    assert_eq!(rows.len(), 3);
    assert_eq!(rows[0].0, "docker-db");
    assert_eq!(rows[0].1.state, State::Up);
    assert_eq!(rows[0].1.uptime, Some(864_000));
    assert_eq!(rows[0].2.state, "running");
    assert_eq!(rows[1].1.state, State::Done);
    assert_eq!(rows[1].1.uptime, None);
    assert_eq!(rows[2].1.state, State::Down);
    assert_eq!(rows[2].2.state, "");
}

#[test]
fn a_refusal_is_the_last_line_compose_said_on_stderr_before_stdout() {
    assert_eq!(
        complaint("pulling\n  \nError: no such service: db\n\n", "ignored"),
        Some("Error: no such service: db".to_string())
    );
    assert_eq!(complaint("", "  only here  "), Some("only here".to_string()));
    assert_eq!(complaint(" \n", "\n"), None);
    assert_eq!(answer(true, "noise", "", "db").note, None);
    assert_eq!(
        answer(false, "", "", "db").note.as_deref(),
        Some("docker refused db")
    );
}

#[test]
fn every_recorded_container_is_read_by_state_health_and_code_and_never_by_the_prose() {
    let containers = parsed(RECORDED);
    let read: Vec<(&str, &str, &str, i32)> = containers
        .iter()
        .map(|container| {
            (
                container.service.as_str(),
                container.state.as_str(),
                container.health.as_str(),
                container.exit_code,
            )
        })
        .collect();
    assert_eq!(
        read,
        vec![
            ("boom", "exited", "", 7),
            ("checked", "running", "healthy", 0),
            ("never", "created", "", 0),
            ("oneshot", "exited", "", 0),
            ("plain", "running", "", 0),
            ("sick", "running", "unhealthy", 0),
            ("slow", "running", "starting", 0),
        ]
    );
    assert!(
        RECORDED.contains("\"Status\":\"Up About a minute (health: starting)\""),
        "the fixture must still carry the prose this code refuses to parse"
    );
}

#[test]
fn a_running_service_is_up_whether_it_has_a_healthcheck_or_passes_one() {
    for name in ["plain", "checked"] {
        let status = observed(name, false);
        assert_eq!(status.state, State::Up, "{name}");
        assert_eq!(status.note, None, "{name}");
    }
}

#[test]
fn a_running_service_failing_its_healthcheck_is_up_with_unhealthy_in_the_note() {
    let status = observed("sick", false);
    assert_eq!(status.state, State::Up);
    assert_eq!(status.note.as_deref(), Some("unhealthy"));
}

#[test]
fn a_healthcheck_still_inside_its_start_period_is_starting() {
    assert_eq!(observed("slow", false).state, State::Starting);
}

#[test]
fn an_exited_one_shot_is_done_and_the_same_container_undeclared_is_down() {
    let done = observed("oneshot", true);
    assert_eq!(done.state, State::Done);
    assert_eq!(done.timing(), "exit 0");

    let down = observed("oneshot", false);
    assert_eq!(down.state, State::Down);
    assert_eq!(down.timing(), "exit 0");
}

#[test]
fn an_exited_service_shows_the_code_it_exited_with() {
    let status = observed("boom", false);
    assert_eq!(status.state, State::Down);
    assert_eq!(status.timing(), "exit 7");
}

#[test]
fn a_service_absent_from_the_output_is_down_with_nothing_to_show() {
    let status = observed("ghost", false);
    assert_eq!(status.state, State::Down);
    assert_eq!(status.timing(), "");
    assert_eq!(status.note, None);
}

#[test]
fn a_created_container_is_down_and_says_which_docker_word_it_is_in() {
    let status = observed("never", false);
    assert_eq!(status.state, State::Down);
    assert_eq!(status.note.as_deref(), Some("created"));
}

#[test]
fn no_recorded_container_ever_reads_as_dead() {
    for one_shot in [true, false] {
        for container in parsed(RECORDED).iter() {
            assert_ne!(observed_status(Some(container), one_shot).state, State::Dead, "{container:?}");
        }
    }
}

#[test]
fn a_project_with_nothing_created_yields_no_containers_rather_than_a_complaint() {
    assert!(parsed("").is_empty());
    assert!(parsed("\n\n").is_empty());
    assert!(parsed("not json at all").is_empty());
}

#[test]
fn a_line_that_is_not_a_container_is_skipped_rather_than_costing_the_rows_around_it() {
    let noisy = format!("time=\"2026-08-18T23:39:38+02:00\" level=warning msg=\"obsolete\"\n{RECORDED}");
    assert_eq!(parsed(&noisy), parsed(RECORDED));
    assert!(!parsed(RECORDED).is_empty());
}

#[test]
fn the_array_shape_older_compose_emitted_reads_the_same_as_one_object_per_line() {
    let lines = "{\"Service\":\"db\",\"State\":\"running\",\"Health\":\"healthy\",\"Name\":\"p-db-1\",\"ExitCode\":0}\n\
                 {\"Service\":\"web\",\"State\":\"exited\",\"Health\":\"\",\"Name\":\"p-web-1\",\"ExitCode\":1}";
    let array = format!("[{}]", lines.replace('\n', ","));
    assert_eq!(parsed(lines), parsed(&array));
    assert_eq!(parsed(lines).len(), 2);
}

fn service(name: &str, one_shot: bool) -> Service {
    Service {
        name: name.to_string(),
        one_shot,
    }
}

#[test]
fn a_start_waits_for_readiness_and_a_one_shot_start_never_does() {
    let root = "/repos/harmony";
    assert_eq!(
        up_command(root, &service("db", false)).args,
        ["compose", "up", "-d", "--wait", "--wait-timeout", "10", "db"]
    );
    assert_eq!(
        up_command(root, &service("minio_init", true)).args,
        ["compose", "up", "-d", "minio_init"]
    );
}

#[test]
fn a_restart_is_the_same_command_as_a_start_so_a_changed_compose_file_takes_effect() {
    let root = "/repos/harmony";
    let service = service("db", false);
    assert_eq!(up_command(root, &service), up_command(root, &service));
    assert!(!up_command(root, &service).args.contains(&"restart".to_string()));
}

#[test]
fn a_stop_names_one_service_and_never_brings_the_project_down() {
    let argv = stop_command("/repos/harmony", &service("db", false)).args;
    assert_eq!(argv, ["compose", "stop", "db"]);
    assert!(!argv.contains(&"down".to_string()));
}

#[test]
fn a_log_peek_streams_one_service_without_colour() {
    assert_eq!(
        logs_command("/repos/harmony", "db").args,
        ["compose", "logs", "--no-color", "--no-log-prefix", "--follow", "--tail", LOG_TAIL, "db"]
    );
}

#[test]
fn every_command_runs_from_the_project_root_with_no_compose_file_named() {
    let root = "/repos/harmony";
    let service = service("db", false);
    for command in [
        ps_command(root),
        up_command(root, &service),
        stop_command(root, &service),
        logs_command(root, &service.name),
    ] {
        assert_eq!(command.cwd.as_deref(), Some(root));
        assert_eq!(command.program, DOCKER);
        assert!(!command.args.iter().any(|arg| arg == "-f" || arg == "--file"), "{:?}", command.args);
    }
}

#[test]
fn a_read_asks_for_stopped_containers_too_because_a_finished_one_shot_is_one() {
    assert!(ps_command("/repos/harmony").args.contains(&"--all".to_string()));
}

#[test]
fn inspect_asks_for_each_name_and_its_start_time() {
    let command = inspect_command(&vec!["p-db-1".to_string()]);
    assert_eq!(command.args, ["inspect", "--format", "{{.Name}} {{.State.StartedAt}}", "p-db-1"]);
    assert_eq!(command.cwd, None);
}

#[test]
fn a_read_says_why_docker_could_not_tell_or_what_it_printed() {
    assert_eq!(
        ps(Err("No such file or directory (os error 2)".to_string()), "", ""),
        Err(format!("{DOCKER}: No such file or directory (os error 2)"))
    );
    assert_eq!(
        ps(Ok(false), "Cannot connect to the Docker daemon\n", ""),
        Err("Cannot connect to the Docker daemon".to_string())
    );
    assert_eq!(ps(Ok(false), "", ""), Err("docker is not answering".to_string()));
    assert_eq!(ps(Ok(true), "", RECORDED).map(|v| v.len()), Ok(7));
    assert_eq!(ps(Ok(true), "", "").map(|v| v.len()), Ok(0));
}

#[test]
fn a_restart_runs_the_same_up_as_a_start_and_a_stop_runs_stop() {
    let web = Service { name: "web".to_string(), one_shot: false };
    let start = herdr_dev::docker::verb_command("/repos/harmony", &web, Act::Start);
    let restart = herdr_dev::docker::verb_command("/repos/harmony", &web, Act::Restart);
    let stop = herdr_dev::docker::verb_command("/repos/harmony", &web, Act::Stop);
    assert_eq!(start.args, restart.args);
    assert_eq!(start.args, up_command("/repos/harmony", &web).args);
    assert_eq!(stop.args, stop_command("/repos/harmony", &web).args);
}

#[test]
fn when_docker_cannot_be_asked_every_row_is_unknown_and_stale() {
    let services = vec![
        Service { name: "db".to_string(), one_shot: false },
        Service { name: "migrate".to_string(), one_shot: true },
    ];
    let rows = herdr_dev::docker::unread(&services, &vec![None, None], "docker is not answering", NOW);
    assert_eq!(rows.len(), 2);
    assert_eq!(rows[0].0, "docker-db");
    assert_eq!(rows[1].0, "docker-migrate");
    for (_, status) in &rows {
        assert_eq!(status.state, State::Unknown);
        assert_eq!(status.uptime, None);
        assert_eq!(status.note.as_deref(), Some("docker is not answering"));
    }
    assert!(herdr_dev::docker::unread(&vec![], &vec![], "x", NOW).is_empty());
}

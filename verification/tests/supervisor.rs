use herdr_dev::store::{Identity, Record};
use herdr_dev::supervisor::{forget, remembered, Halt, Supervisor, Verdict};
use herdr_dev::unit::{key, Exit, State, Status, LOCAL};

fn project(name: &str) -> Identity {
    Identity {
        path: format!("/tmp/herdr-dev-supervisor/{name}"),
        name: name.to_string(),
    }
}

fn row<'a>(rows: &'a [(String, Status)], key: &str) -> &'a Status {
    &rows
        .iter()
        .find(|(k, _)| k == key)
        .expect("a row for the unit")
        .1
}

#[test]
fn a_record_claiming_up_without_a_live_entry_reads_as_down_rather_than_running() {
    let supervisor = Supervisor::new("/tmp/herdr-dev-supervisor/state".to_string(), 5000);
    let harmony = project("harmony");
    let unit = key(LOCAL, "vite");
    let records = vec![(
        unit.clone(),
        Record {
            state: State::Up,
            pid: Some(1),
            started_at: Some(1_000),
            ps_start: Some("Mon Aug 18 17:32:05 2026".to_string()),
            cmd: vec!["bin/vite".to_string()],
            cwd: harmony.path.clone(),
            exit: None,
        },
    )];

    let rows = supervisor.status(&harmony, &records, &Vec::new(), 9_000);
    let status = row(&rows, &unit);
    assert_eq!(status.state, State::Down);
    assert_eq!(status.uptime, None);
}

#[test]
fn a_dead_units_exit_survives_in_the_status_it_is_read_back_as() {
    let supervisor = Supervisor::new("/tmp/herdr-dev-supervisor/state".to_string(), 5000);
    let harmony = project("harmony");
    let unit = key(LOCAL, "rails");
    let mut record = Record::stopped();
    record.state = State::Dead;
    record.exit = Some(Exit::Code(7));

    let rows = supervisor.status(&harmony, &vec![(unit.clone(), record)], &Vec::new(), 0);
    let status = row(&rows, &unit);
    assert_eq!(status.state, State::Dead);
    assert_eq!(status.timing(), "exit 7");
}

#[test]
fn stopping_something_that_never_ran_says_so_and_leaves_its_record_alone() {
    let supervisor = Supervisor::new("/tmp/herdr-dev-supervisor/state".to_string(), 5000);
    let mut crashed = Record::stopped();
    crashed.state = State::Dead;
    crashed.exit = Some(Exit::Code(7));

    let verdict = supervisor.stop("rails", Halt::NotRunning);
    assert_eq!(verdict.note.as_deref(), Some("rails is not running"));
    assert_eq!(forget(&crashed), None);
}

#[test]
fn a_unit_the_daemon_already_runs_is_refused_by_the_name_of_its_holder() {
    let mut supervisor = Supervisor::new("/tmp/herdr-dev-supervisor/state".to_string(), 200);
    let one = project("harmony");
    let two = project("harmony-wt2");
    let names = vec![(one.key(), one.name.clone()), (two.key(), two.name.clone())];

    let first = supervisor.handle(&one, "sleeper");
    supervisor.adopt(first.clone(), 4242, 1_000);
    assert!(supervisor.busy());

    let second = supervisor.handle(&two, "sleeper");
    let (holder, pid) = supervisor.claim_on(&second).expect("a claim on the name");
    assert_eq!(holder, one.key());
    let refusal = supervisor.claim(&holder, pid, &names).label();
    assert_eq!(refusal, "held by harmony, pid 4242");

    let rows = supervisor.status(&two, &Vec::new(), &names, 2_000);
    let claim = row(&rows, &key(LOCAL, "sleeper"))
        .held
        .clone()
        .expect("a claim on the row");
    assert_eq!(claim.project, "harmony");
    assert_eq!(claim.pid, 4242);

    let groups = supervisor.kill_all();
    assert_eq!(groups, vec![(first.clone(), 4242)]);
    supervisor.reaped(&first, None, Some(Exit::Signal(15)));
    assert!(!supervisor.busy());
}

#[test]
fn an_immediate_failure_is_witnessed_by_its_parent_with_the_code_it_exited_with() {
    let mut supervisor = Supervisor::new("/tmp/herdr-dev-supervisor/state".to_string(), 200);
    let harmony = project("harmony");
    let boom = supervisor.handle(&harmony, "boom");
    supervisor.adopt(boom.clone(), 77, 1_000);

    let mut spawned = Record::stopped();
    spawned.state = State::Up;
    spawned.pid = Some(77);
    spawned.cmd = vec!["sh".to_string(), "-c".to_string(), "exit 7".to_string()];
    let record = supervisor.reaped(&boom, Some(spawned), Some(Exit::Code(7)));
    assert_eq!(record.state, State::Dead);
    assert_eq!(record.pid, None);
    assert_eq!(record.exit, Some(Exit::Code(7)));
    assert_eq!(record.cmd, vec!["sh", "-c", "exit 7"]);
    assert!(!supervisor.busy());

    let rows = supervisor.status(&harmony, &vec![(boom.unit.clone(), record)], &Vec::new(), 2_000);
    let status = row(&rows, &boom.unit);
    assert_eq!(status.state, State::Dead);
    assert_eq!(status.exit, Some(Exit::Code(7)));
}

#[test]
fn stopping_a_unit_records_down_while_keeping_what_it_exited_with() {
    let mut supervisor = Supervisor::new("/tmp/herdr-dev-supervisor/state".to_string(), 5000);
    let harmony = project("harmony");
    let sleeper = supervisor.handle(&harmony, "sleeper");
    supervisor.adopt(sleeper.clone(), 91, 1_000);
    assert!(supervisor.busy());

    assert_eq!(supervisor.mark_stopping(&sleeper), Some(91));
    let record = supervisor.reaped(&sleeper, None, Some(Exit::Signal(15)));
    assert!(!supervisor.busy());
    assert_eq!(supervisor.stop("sleeper", Halt::Stopped), Verdict::done());

    assert_eq!(record.state, State::Down);
    assert_eq!(record.pid, None);
    assert!(record.exit.is_some(), "a stop is still an exit");
    let rows = supervisor.status(&harmony, &vec![(sleeper.unit.clone(), record)], &Vec::new(), 2_000);
    assert_eq!(row(&rows, &sleeper.unit).state, State::Down);
}

#[test]
fn a_live_unit_reads_up_with_the_time_since_it_was_adopted() {
    let mut supervisor = Supervisor::new("/tmp/herdr-dev-supervisor/state".to_string(), 5000);
    let harmony = project("harmony");
    let vite = supervisor.handle(&harmony, "vite");
    supervisor.adopt(vite.clone(), 12, 1_000);

    let rows = supervisor.status(&harmony, &Vec::new(), &Vec::new(), 4_500);
    let status = row(&rows, &vite.unit);
    assert_eq!(status.state, State::Up);
    assert_eq!(status.uptime, Some(3_500));
    assert!(supervisor.holds(&vite));
}

#[test]
fn a_record_that_still_names_a_pid_is_forgotten_down_with_its_exit() {
    let mut record = Record::stopped();
    record.state = State::Up;
    record.pid = Some(300);
    record.started_at = Some(5);
    record.exit = Some(Exit::Code(1));
    let forgotten = forget(&record).expect("something to write");
    assert_eq!(forgotten.state, State::Down);
    assert_eq!(forgotten.pid, None);
    assert_eq!(forgotten.started_at, None);
    assert_eq!(forgotten.exit, Some(Exit::Code(1)));
    assert_eq!(remembered(&forgotten).state, State::Down);
}

#[test]
fn an_escalated_stop_says_so_and_a_restart_keeps_a_start_refusal() {
    let supervisor = Supervisor::new("/tmp/herdr-dev-supervisor/state".to_string(), 5000);
    let escalated = supervisor.stop("rails", Halt::Escalated);
    assert_eq!(
        escalated.note.as_deref(),
        Some("rails ignored SIGTERM; killed after 5s")
    );
    let refused = Verdict::note("held by harmony, pid 9".to_string());
    assert_eq!(supervisor.restart("rails", Halt::Escalated, refused.clone()), refused);
    assert!(supervisor
        .restart("rails", Halt::Escalated, Verdict::done())
        .note
        .is_some());
    assert_eq!(supervisor.restart("rails", Halt::Stopped, Verdict::done()), Verdict::done());
}

#[test]
fn only_local_records_that_name_a_pid_are_rewritten_after_a_predecessor() {
    let mut named = Record::stopped();
    named.state = State::Up;
    named.pid = Some(7);
    let mut claiming = Record::stopped();
    claiming.state = State::Up;
    let records = vec![
        (key(LOCAL, "vite"), named.clone()),
        (key(LOCAL, "rails"), claiming),
        ("docker-db".to_string(), named),
        (key(LOCAL, "idle"), Record::stopped()),
    ];
    assert_eq!(herdr_dev::supervisor::to_forget(&records), vec![0]);
}

#[test]
fn only_the_leftovers_still_running_are_named_as_killed() {
    let leftovers = vec![(key(LOCAL, "vite"), 11), (key(LOCAL, "rails"), 12)];
    assert_eq!(
        herdr_dev::supervisor::killed("harmony-1a2b3c4d", &leftovers, &vec![false, true]),
        vec!["harmony-1a2b3c4d/local-rails".to_string()]
    );
}

use std::collections::BTreeMap;

use herdr_dev::local::{command, group_empty, leads_its_group, mise_path, still_running, Recipe, Spec, NO_AUTO_INSTALL};

fn spec() -> Spec {
    Spec {
        name: "vite".into(),
        cmd: vec!["bin/vite".into(), "dev".into()],
        cwd: "/repos/harmony".into(),
        env: vec![("VITE_RUBY_HOST".to_string(), "127.0.0.1".to_string())],
        tty: false,
    }
}

/// What the process sees: a later pair for a key wins, as `Command::envs` has it.
fn env_of(recipe: &Recipe) -> BTreeMap<String, String> {
    let mut env = BTreeMap::new();
    for (key, value) in &recipe.env {
        env.insert(key.clone(), value.clone());
    }
    env
}

fn pairs(list: &[(&str, &str)]) -> Vec<(String, String)> {
    list.iter()
        .map(|(key, value)| (key.to_string(), value.to_string()))
        .collect()
}

fn built(base: &[(&str, &str)]) -> Recipe {
    command(&spec(), "/opt/mise", &pairs(base))
}

fn built_on_a_terminal(base: &[(&str, &str)], env: &[(&str, &str)]) -> Recipe {
    let mut spec = spec();
    spec.tty = true;
    spec.env = pairs(env);
    command(&spec, "/opt/mise", &pairs(base))
}

#[test]
fn a_tty_unit_is_told_what_terminal_it_is_on_rather_than_inheriting_one() {
    let env = env_of(&built_on_a_terminal(&[("TERM", "dumb")], &[]));
    assert_eq!(env.get("TERM").map(String::as_str), Some("xterm-256color"));
    // A unit on pipes has no terminal to name, so nothing is decided for it.
    assert_eq!(
        env_of(&built(&[("TERM", "dumb")])).get("TERM").map(String::as_str),
        Some("dumb")
    );
}

#[test]
fn a_manifest_that_names_a_terminal_type_itself_is_not_overruled() {
    let env = env_of(&built_on_a_terminal(&[], &[("TERM", "xterm")]));
    assert_eq!(env.get("TERM").map(String::as_str), Some("xterm"));
}

#[test]
fn a_unit_runs_through_mise_exec_from_its_own_directory() {
    let recipe = built(&[]);
    assert_eq!(recipe.program, "/opt/mise");
    assert_eq!(recipe.args, ["exec", "--", "bin/vite", "dev"]);
    assert_eq!(recipe.cwd, "/repos/harmony");
}

#[test]
fn auto_install_is_off_so_a_missing_toolchain_fails_into_the_log() {
    let env = env_of(&built(&[(NO_AUTO_INSTALL, "true")]));
    assert_eq!(env.get(NO_AUTO_INSTALL).map(String::as_str), Some("false"));
    let env = env_of(&built_on_a_terminal(&[], &[(NO_AUTO_INSTALL, "true")]));
    assert_eq!(env.get(NO_AUTO_INSTALL).map(String::as_str), Some("false"));
}

#[test]
fn the_units_env_is_layered_over_the_daemons_own_and_wins() {
    let env = env_of(&built(&[("PATH", "/usr/bin"), ("VITE_RUBY_HOST", "from-the-daemon")]));
    assert_eq!(env.get("PATH").map(String::as_str), Some("/usr/bin"));
    assert_eq!(
        env.get("VITE_RUBY_HOST").map(String::as_str),
        Some("127.0.0.1"),
        "the unit's own env must sit innermost"
    );
}

#[test]
fn the_recipe_env_keeps_every_layer_in_order() {
    let recipe = built_on_a_terminal(&[("PATH", "/usr/bin")], &[("A", "1")]);
    assert_eq!(
        recipe.env,
        pairs(&[
            ("PATH", "/usr/bin"),
            ("TERM", "xterm-256color"),
            ("A", "1"),
            (NO_AUTO_INSTALL, "false"),
        ])
    );
}

#[test]
fn mise_is_spelled_out_under_home() {
    assert_eq!(mise_path("/home/tester"), "/home/tester/.local/bin/mise");
}

#[test]
fn a_pid_with_no_recorded_start_time_is_never_treated_as_a_leftover() {
    assert!(!still_running(4242, None, true, Some("Mon Aug 18 17:32:05 2026"), Some("4242")));
}

#[test]
fn a_leftover_is_alive_started_when_recorded_and_leads_its_group() {
    let start = "Mon Aug 18 17:32:05 2026";
    assert!(still_running(4242, Some(start), true, Some(start), Some("4242")));
    assert!(!still_running(4242, Some(start), false, Some(start), Some("4242")));
    assert!(!still_running(4242, Some(start), true, Some("Tue Aug 19 09:00:00 2026"), Some("4242")));
    assert!(!still_running(4242, Some(start), true, Some(start), Some("17")));
    assert!(!still_running(4242, Some(start), true, None, Some("4242")));
    assert!(!leads_its_group(4242, None));
    assert!(!leads_its_group(4242, Some("not a number")));
    assert!(leads_its_group(4242, Some("4242")));
}

#[test]
fn a_group_with_a_member_is_not_empty_and_one_that_never_existed_is() {
    let table = "    1     1\n  300   300\n  301   300\n";
    assert!(!group_empty(300, table));
    assert!(!group_empty(1, table));
    assert!(group_empty(u32::MAX - 1, table));
    assert!(group_empty(301, table));
    assert!(group_empty(7, ""));
}

use herdr_dev::agent::{active_pane_cwd, config_path, config_text, git_markers, prompt, repo_root, Config};

fn parse(text: &str) -> Result<Config, String> {
    Config::parse(text)
}

#[test]
fn the_prompt_calls_the_skill_as_a_person_would_and_names_the_directory() {
    assert_eq!(prompt("/repos/harmony"), "/herdr-dev-manifest /repos/harmony");
}

#[test]
fn the_prompt_rides_in_as_one_quoted_argument() {
    let config = Config {
        command: vec!["my-wrapper".into()],
    };
    assert_eq!(
        config.command_line_with("/herdr-dev-manifest /repos/a b"),
        "my-wrapper '/herdr-dev-manifest /repos/a b'"
    );
}

#[test]
fn a_command_with_shell_metacharacters_is_quoted_not_executed() {
    let harness = parse("[agent]\ncommand = [\"a b; rm -rf /\"]\n").unwrap();
    assert_eq!(harness.command_line(), "'a b; rm -rf /'");
}

#[test]
fn a_single_quote_inside_a_word_is_closed_escaped_and_reopened() {
    let config = Config {
        command: vec!["a b; rm -rf /".into(), "it's".into()],
    };
    assert_eq!(
        config.command_line_with("x"),
        "'a b; rm -rf /' 'it'\\''s' x"
    );
    let empty = Config {
        command: vec!["".into()],
    };
    assert_eq!(empty.command_line_with("p"), "'' p");
}

#[test]
fn a_command_may_be_a_bare_string_or_an_argv_array() {
    let one = parse("[agent]\ncommand = \"my-wrapper\"\n").unwrap();
    assert_eq!(one.command, vec!["my-wrapper".to_string()]);
    let many = parse("[agent]\nharness = \"codex\"\ncommand = [\"my-wrapper\", \"--flag\"]\n").unwrap();
    assert_eq!(many.command_line(), "my-wrapper --flag");
}

#[test]
fn a_config_without_an_agent_table_says_so() {
    let error = parse("[other]\nx = 1\n").unwrap_err();
    assert!(error.contains("[agent]"));
}

#[test]
fn a_command_is_required_and_a_stale_harness_key_is_tolerated() {
    assert!(parse("[agent]\n").is_err());
    assert!(parse("[agent]\ncommand = \"\"\n").is_err());
    assert_eq!(
        parse("[agent]\nharness = \"codex\"\ncommand = \"x\"\n")
            .unwrap()
            .command,
        vec!["x".to_string()]
    );
}

#[test]
fn each_way_a_config_can_be_wrong_has_its_own_complaint() {
    assert_eq!(parse("[agent]\n").unwrap_err(), "agent config: [agent] command is missing");
    assert_eq!(parse("agent = 3\n").unwrap_err(), "agent config: no [agent] table");
    assert_eq!(
        parse("[agent]\ncommand = 3\n").unwrap_err(),
        "agent config: [agent] command must be a string or an array of strings"
    );
    assert_eq!(
        parse("[agent]\ncommand = [\"x\", 3]\n").unwrap_err(),
        "agent config: [agent] command holds a non-string"
    );
    assert_eq!(
        parse("[agent]\ncommand = [\" \", \"\\t\"]\n").unwrap_err(),
        "agent config: [agent] command is empty"
    );
    assert!(parse("[agent\n").unwrap_err().starts_with("agent config: "));
    assert_eq!(
        parse("agent = { command = [\"codex\", \" \"] }\n").unwrap().command,
        vec!["codex".to_string(), " ".to_string()]
    );
}

#[test]
fn the_config_lives_under_the_plugins_own_directory() {
    assert_eq!(
        config_path("/Users/kirill"),
        "/Users/kirill/.config/herdr/plugins/config/herdr-dev/config.toml"
    );
}

/// Which of `from`'s markers are there, standing in for the disk.
fn root_of(from: &str, repos: &[&str]) -> String {
    let has_git: Vec<bool> = git_markers(from)
        .iter()
        .map(|marker| repos.iter().any(|repo| format!("{repo}/.git") == *marker))
        .collect();
    repo_root(from, &has_git)
}

#[test]
fn the_repository_root_wins_over_a_pane_sitting_deeper() {
    assert_eq!(root_of("/tmp/agent/app/models", &["/tmp/agent"]), "/tmp/agent");
    assert_eq!(
        git_markers("/tmp/agent/app"),
        ["/tmp/agent/app/.git", "/tmp/agent/.git", "/tmp/.git", "/.git"]
    );
}

#[test]
fn a_directory_outside_any_repository_is_its_own_target() {
    assert_eq!(root_of("/tmp", &[]), "/tmp");
    assert_eq!(root_of("/tmp/a/b", &["/elsewhere"]), "/tmp/a/b");
}

#[test]
fn the_pane_directory_herdr_hands_a_popup_is_read_only_when_it_says_something() {
    assert_eq!(active_pane_cwd(None, "/home/tester"), None);
    assert_eq!(active_pane_cwd(Some(""), "/home/tester"), None);
    assert_eq!(
        active_pane_cwd(Some("~/repos/harmony"), "/home/tester"),
        Some("/home/tester/repos/harmony".to_string())
    );
}

#[test]
fn saving_then_loading_round_trips_and_keeps_a_foreign_key() {
    let existing = "# mine\nkeep_me = true\n\n[agent]\nharness = \"old\"\ncommand = \"old-binary\"\n";
    let config = Config {
        command: vec!["my-wrapper".into(), "--flag".into()],
    };
    let written = config_text(existing, &config).expect("toml");
    assert_eq!(Config::parse(&written).unwrap(), config);
    assert!(!written.contains("harness"));
    assert!(written.contains("keep_me = true"));
    assert!(written.contains("# mine"));
    assert!(!written.contains("old-binary"));
}

#[test]
fn saving_over_nothing_writes_a_fresh_agent_table() {
    let config = Config {
        command: vec!["codex".into()],
    };
    let written = config_text("", &config).expect("toml");
    assert_eq!(Config::parse(&written).unwrap(), config);
}

#[test]
fn saving_over_a_file_that_is_not_toml_says_so_and_writes_nothing() {
    let config = Config {
        command: vec!["codex".into()],
    };
    let refused = config_text("[agent\n", &config).unwrap_err();
    assert!(refused.starts_with("agent config: "), "{refused}");
}

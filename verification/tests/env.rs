use herdr_dev::env::retain;

fn retained(env: &[(&str, &str)]) -> Vec<String> {
    retain(
        env.iter()
            .map(|(key, value)| (key.to_string(), value.to_string()))
            .collect(),
    )
    .into_iter()
    .map(|(key, _)| key)
    .collect()
}

#[test]
fn a_projects_own_vars_do_not_cross() {
    assert_eq!(
        retained(&[
            ("PORT", "3006"),
            ("VITE_RUBY_PORT", "3041"),
            ("RAILS_ENV", "development"),
            ("SSO_CLIENT_SECRET", "shh"),
        ]),
        Vec::<String>::new(),
        "the leak this module exists to stop"
    );
}

#[test]
fn the_machine_and_the_user_do_cross() {
    assert_eq!(
        retained(&[("HOME", "/Users/kirill"), ("PATH", "/usr/bin"), ("LC_ALL", "C")]),
        ["HOME", "PATH", "LC_ALL"]
    );
}

#[test]
fn the_pane_that_happened_to_call_does_not_cross() {
    assert_eq!(
        retained(&[
            ("HERDR_PANE_ID", "wA:pH"),
            ("HERDR_STARTUP_CWD", "/Users/kirill"),
            ("TERM", "ghostty"),
            ("PWD", "/repos/liveops_server"),
        ]),
        Vec::<String>::new()
    );
}

#[test]
fn a_value_is_carried_across_whole() {
    assert_eq!(
        retain(vec![("PATH".to_string(), "/usr/bin:/bin".to_string())]),
        [("PATH".to_string(), "/usr/bin:/bin".to_string())]
    );
}

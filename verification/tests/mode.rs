use herdr_dev::cli::{Act, Ask};
use herdr_dev::mode::{from_args, Mode, ModeError};
use herdr_dev::state;

const HOME: &str = "/Users/kirill";

fn args(words: &[&str]) -> Vec<String> {
    words.iter().map(|word| word.to_string()).collect()
}

fn parse(words: &[&str]) -> Result<Mode, ModeError> {
    from_args(&args(words), &state::root(HOME))
}

fn ask(project: &str) -> Ask {
    Ask {
        project: Some(project.to_string()),
        state: None,
    }
}

#[test]
fn no_arguments_is_the_tui() {
    assert_eq!(parse(&[]), Ok(Mode::Tui));
}

#[test]
fn daemon_and_the_two_panes_are_their_own_modes() {
    assert_eq!(
        parse(&["daemon"]),
        Ok(Mode::Daemon {
            root: state::root(HOME)
        })
    );
    assert_eq!(parse(&["tail"]), Ok(Mode::Tail));
    assert_eq!(parse(&["attach"]), Ok(Mode::Attach));
}

#[test]
fn a_daemon_may_be_pointed_at_another_state_root() {
    assert_eq!(
        parse(&["daemon", "--state-root", "/tmp/scratch"]),
        Ok(Mode::Daemon {
            root: "/tmp/scratch".to_string()
        })
    );
    assert_eq!(
        parse(&["daemon", "--state-root"]),
        Err(ModeError::MissingValue("--state-root".into()))
    );
    assert_eq!(
        parse(&["daemon", "--root", "/tmp"]),
        Err(ModeError::UnexpectedArgument("--root".into()))
    );
}

#[test]
fn status_takes_a_project_or_the_working_directory() {
    assert_eq!(
        parse(&["status"]),
        Ok(Mode::Status {
            ask: Ask::default()
        })
    );
    assert_eq!(
        parse(&["status", "--project", "/repos/harmony"]),
        Ok(Mode::Status {
            ask: ask("/repos/harmony")
        })
    );
}

#[test]
fn a_verb_takes_its_flags_first_and_then_every_word_as_a_unit() {
    assert_eq!(
        parse(&["restart", "--project", "/repos/harmony", "rails", "docker-db"]),
        Ok(Mode::Control {
            act: Act::Restart,
            ask: ask("/repos/harmony"),
            units: vec!["rails".to_string(), "docker-db".to_string()],
        })
    );
    assert_eq!(
        parse(&["start", "vite"]),
        Ok(Mode::Control {
            act: Act::Start,
            ask: Ask::default(),
            units: vec!["vite".to_string()],
        })
    );
}

#[test]
fn a_verb_without_a_unit_says_so_rather_than_acting_on_everything() {
    assert_eq!(parse(&["stop"]), Err(ModeError::MissingUnit("stop".into())));
    assert_eq!(
        parse(&["stop", "--project", "/repos/harmony"]),
        Err(ModeError::MissingUnit("stop".into()))
    );
}

#[test]
fn a_flag_without_a_directory_is_not_allowed_to_eat_the_unit_after_it() {
    assert_eq!(
        parse(&["start", "--project"]),
        Err(ModeError::MissingValue("--project".into()))
    );
    assert_eq!(
        parse(&["status", "--state-root"]),
        Err(ModeError::MissingValue("--state-root".into()))
    );
}

#[test]
fn a_unit_named_like_nothing_we_parse_is_still_a_unit() {
    assert_eq!(
        parse(&["start", "-x"]),
        Ok(Mode::Control {
            act: Act::Start,
            ask: Ask::default(),
            units: vec!["-x".to_string()],
        })
    );
}

#[test]
fn unknown_mode_names_the_argument() {
    let err = parse(&["tui"]).unwrap_err();
    assert_eq!(err, ModeError::UnknownMode("tui".into()));
    assert!(err.message().contains("`tui`"));
}

#[test]
fn help_flag_is_not_a_mode() {
    assert!(parse(&["--help"]).is_err());
}

#[test]
fn a_mode_takes_no_further_arguments() {
    assert_eq!(
        parse(&["daemon", "--state-root", "/tmp", "extra"]),
        Err(ModeError::UnexpectedArgument("extra".into()))
    );
    assert_eq!(
        parse(&["tail", "/tmp/x.log"]),
        Err(ModeError::UnexpectedArgument("/tmp/x.log".into()))
    );
}

#[test]
fn a_refusal_reads_as_a_sentence_naming_what_it_refused() {
    assert_eq!(
        ModeError::MissingValue("--project".into()).message(),
        "`--project` needs a directory"
    );
    assert_eq!(
        ModeError::MissingUnit("stop".into()).message(),
        "`stop` needs a unit to act on"
    );
    assert_eq!(
        ModeError::UnexpectedArgument("x".into()).message(),
        "unexpected argument `x`"
    );
}

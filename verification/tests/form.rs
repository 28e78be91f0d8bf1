use herdr_dev::agent::Config;
use herdr_dev::form::Form;

fn form(command: &str) -> Form {
    Form {
        command: command.to_string(),
    }
}

#[test]
fn typing_appends_and_backspace_removes() {
    let mut form = form("");
    form.insert('c');
    form.insert('x');
    form.backspace();
    assert_eq!(form.command, "c");
}

#[test]
fn backspace_on_an_empty_field_is_not_an_error() {
    let mut form = form("");
    form.backspace();
    assert_eq!(form.command, "");
}

#[test]
fn control_characters_never_enter_the_field() {
    let mut form = form("");
    form.insert('\t');
    form.insert('\n');
    assert_eq!(form.command, "");
}

#[test]
fn a_multi_word_command_becomes_argv() {
    let config = form(" my-wrapper  --flag ").to_config().unwrap();
    assert_eq!(config.command, vec!["my-wrapper", "--flag"]);
}

#[test]
fn a_blank_command_is_rejected() {
    assert!(form("   ").to_config().is_err());
    assert!(form("").to_config().is_err());
}

#[test]
fn the_form_opens_on_the_command_already_configured() {
    let loaded = Config {
        command: vec!["my-wrapper".to_string(), "--flag".to_string()],
    };
    assert_eq!(Form::open(Some(loaded)).command, "my-wrapper --flag");
    assert_eq!(Form::open(None).command, "");
}

#[test]
fn typing_a_character_and_erasing_it_leaves_the_field_as_it_was() {
    let mut form = form("café");
    form.insert('✔');
    form.backspace();
    assert_eq!(form.command, "café");
}

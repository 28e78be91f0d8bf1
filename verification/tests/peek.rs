use herdr_dev::manifest::Project;
use herdr_dev::peek::{readable, Source, NO_REPO_LOG};
use herdr_dev::store::Store;

#[test]
fn colour_and_the_rest_of_the_control_characters_never_reach_the_screen() {
    assert_eq!(readable("\u{1b}[32mgreen\u{1b}[0m done"), "green done");
    assert_eq!(readable("\u{1b}]0;a title\u{7}shell"), "shell");
    assert_eq!(readable("\u{1b}]0;a title\u{1b}\\shell"), "shell");
    assert_eq!(readable("bare\rrewrite"), "barerewrite");
    assert_eq!(readable("a\tb"), "a    b");
    assert_eq!(readable("\u{1b}(Bplain"), "plain");
}

fn project() -> Project {
    Project {
        root: "/Users/kirill/repos/harmony".into(),
        manifest: "/Users/kirill/repos/harmony/.herdr-dev.toml".into(),
        name: "harmony".into(),
        env: Vec::new(),
        local: Vec::new(),
        docker: Vec::new(),
        includes: Vec::new(),
        problems: Vec::new(),
    }
}

#[test]
fn a_local_row_peeks_its_log_file_and_a_docker_row_peeks_compose() {
    let store = Store::at("/state".to_string());
    let project = project();
    let local = Source::of(&store, &project, "local", "vite").expect("a log");
    match &local {
        Source::Log { unit, path } => {
            assert_eq!(unit, "vite");
            assert!(path.starts_with("/state/projects/harmony-"), "{path}");
            assert!(path.ends_with("/logs/local-vite.log"), "{path}");
        }
        other => panic!("{other:?}"),
    }
    let compose = Source::of(&store, &project, "docker", "db").expect("compose");
    assert_eq!(
        compose,
        Source::Compose {
            service: "db".into(),
            root: project.root.clone(),
        }
    );
    assert_eq!(
        compose.heading("/Users/kirill"),
        "db  docker  compose logs in ~/repos/harmony"
    );
    assert_eq!(Source::of(&store, &project, "", "player_server"), Err(NO_REPO_LOG.to_string()));
}

#[test]
fn an_escape_at_the_very_end_takes_nothing_after_it_with_it() {
    assert_eq!(readable("tail\u{1b}"), "tail");
    assert_eq!(readable("\u{1b}[31"), "");
    assert_eq!(readable("\u{1b}Xkept"), "kept");
}

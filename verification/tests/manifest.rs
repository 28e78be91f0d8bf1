use herdr_dev::manifest::{LoadError, Project};

const MANIFEST: &str = "/tmp/herdr-dev-tests/project/.herdr-dev.toml";
const HOME: &str = "/home/tester";

fn parse(text: &str) -> Result<Project, LoadError> {
    Project::parse(text, MANIFEST, HOME)
}

fn rejection(text: &str) -> String {
    match parse(text) {
        Err(error) => error.message(),
        Ok(project) => panic!("accepted, with problems {:?}", project.problems),
    }
}

fn accepted(text: &str) -> Project {
    parse(text).unwrap_or_else(|error| panic!("{}", error.message()))
}

fn var<'a>(env: &'a [(String, String)], key: &str) -> &'a str {
    env.iter()
        .rev()
        .find(|(name, _)| name == key)
        .map(|(_, value)| value.as_str())
        .unwrap_or_else(|| panic!("{key} is not set in {env:?}"))
}

fn docker_names(project: &Project) -> Vec<&str> {
    project.docker.iter().map(|s| s.name.as_str()).collect()
}

#[test]
fn a_syntax_error_names_the_file() {
    let complaint = rejection("[local.rails\ncmd = []\n");
    assert!(complaint.starts_with(MANIFEST), "{complaint}");
}

#[test]
fn duplicate_names_are_rejected_by_name() {
    let complaint = rejection(
        r#"
        [docker]
        names = ["db", "redis", "db"]
        "#,
    );
    assert!(complaint.contains("`db` twice"), "{complaint}");
}

#[test]
fn a_local_unit_without_cmd_breaks_only_itself() {
    let project = accepted(
        r#"
        [local.rails]
        cwd = "."

        [local.vite]
        cmd = ["bin/vite", "dev"]
        "#,
    );
    let rails = &project.local[0];
    assert!(rails.is_broken());
    assert_eq!(rails.problem.as_deref(), Some("[local.rails] has no `cmd`"));
    assert_eq!(project.problems, ["[local.rails] has no `cmd`"]);
    assert!(!project.local[1].is_broken());
    assert_eq!(project.local[1].cmd, ["bin/vite", "dev"]);
}

#[test]
fn a_shell_string_is_not_a_cmd() {
    let project = accepted(
        r#"
        [local.rails]
        cmd = "bundle exec rails s"
        "#,
    );
    let problem = project.local[0].problem.clone().unwrap();
    assert!(
        problem.contains("`cmd` must be an array of strings"),
        "{problem}"
    );
    assert!(problem.contains("found string"), "{problem}");
    assert!(project.local[0].cmd.is_empty());
}

#[test]
fn a_cmd_element_that_is_not_a_string_is_caught_with_its_index() {
    let project = accepted(
        r#"
        [local.rails]
        cmd = ["bin/rails", "server", "-p", 3000]
        "#,
    );
    let problem = project.local[0].problem.clone().unwrap();
    assert!(problem.contains("element 3 is integer"), "{problem}");
}

#[test]
fn an_empty_cmd_is_caught() {
    let project = accepted(
        r#"
        [local.rails]
        cmd = []
        "#,
    );
    assert!(project.local[0].is_broken());
}

#[test]
fn an_unknown_top_level_key_is_rejected() {
    let complaint = rejection("ports = [3000]\n");
    assert!(
        complaint.contains("unknown top-level key `ports`"),
        "{complaint}"
    );
    assert!(complaint.contains("`local`"), "{complaint}");
}

#[test]
fn the_schema_that_was_dropped_stays_dropped() {
    for text in [
        "[[units]]\nname = \"rails\"\n",
        "[[groups]]\nname = \"deps\"\n",
        "version = 1\n",
        "compose_file = \"docker-compose.yml\"\n",
    ] {
        let complaint = rejection(text);
        assert!(complaint.contains("unknown top-level key"), "{complaint}");
    }
}

#[test]
fn an_unknown_docker_key_is_rejected() {
    let complaint = rejection(
        r#"
        [docker]
        names = ["db"]
        services = ["db"]
        "#,
    );
    assert!(complaint.contains("unknown key `services`"), "{complaint}");
}

#[test]
fn an_unknown_local_key_breaks_only_that_unit() {
    let project = accepted(
        r#"
        [local.rails]
        cmd = ["bin/rails", "s"]
        optional = true

        [local.vite]
        cmd = ["bin/vite", "dev"]
        "#,
    );
    let problem = project.local[0].problem.clone().unwrap();
    assert!(problem.contains("unknown key `optional`"), "{problem}");
    assert!(!project.local[1].is_broken());
}

#[test]
fn a_name_may_be_both_one_shot_and_hidden() {
    let project = accepted(
        r#"
        [docker]
        names = ["db"]
        one_shot = ["minio_init"]
        hidden = ["minio", "minio_init"]
        "#,
    );
    assert!(project.problems.is_empty(), "{:?}", project.problems);
    assert_eq!(docker_names(&project), ["db"]);
}

#[test]
fn hidden_services_never_reach_the_model() {
    let project = accepted(
        r#"
        [docker]
        names = ["db", "redis"]
        hidden = ["web", "frontend"]

        [docker.notes]
        db = "the one that matters"
        "#,
    );
    let rendered: Vec<&str> = project.docker.iter().map(|s| s.name.as_str()).collect();
    assert_eq!(rendered, ["db", "redis"]);
    assert!(!format!("{project:?}").contains("web"), "{project:?}");
}

#[test]
fn hidden_wins_over_names_and_says_so() {
    let project = accepted(
        r#"
        [docker]
        names = ["db", "web"]
        hidden = ["web"]
        "#,
    );
    assert_eq!(docker_names(&project), ["db"]);
    assert_eq!(project.problems.len(), 1);
    assert!(
        project.problems[0].contains("`web` is in both"),
        "{:?}",
        project.problems
    );
}

#[test]
fn a_one_shot_that_is_declared_nowhere_is_a_complaint_not_a_rejection() {
    let project = accepted(
        r#"
        [docker]
        names = ["db"]
        one_shot = ["migrate"]
        "#,
    );
    assert_eq!(docker_names(&project), ["db"]);
    assert!(
        project.problems[0].contains("`migrate`"),
        "{:?}",
        project.problems
    );
}

#[test]
fn a_note_for_a_service_that_is_never_rendered_is_a_complaint() {
    let project = accepted(
        r#"
        [docker]
        names = ["db"]
        hidden = ["web"]

        [docker.notes]
        web = "unreachable"
        typo = "also unreachable"
        "#,
    );
    assert_eq!(project.problems.len(), 2);
    assert!(project.problems.iter().any(|p| p.contains("`typo`")));
    assert!(project.problems.iter().any(|p| p.contains("hidden")));
}

#[test]
fn env_layers_process_then_top_level_then_unit() {
    let project = accepted(
        r#"
        [env]
        CURRENT_WORKTREE = "wt2"
        VITE_RUBY_PORT = "3036"

        [local.vite]
        cmd = ["bin/vite", "dev"]
        env = { VITE_RUBY_PORT = "3136" }
        "#,
    );
    let vite = &project.local[0];
    assert_eq!(var(&vite.env, "CURRENT_WORKTREE"), "wt2");
    assert_eq!(var(&vite.env, "VITE_RUBY_PORT"), "3136");
    assert_eq!(var(&project.env, "VITE_RUBY_PORT"), "3036");

    let base = vec![
        ("PATH".to_string(), "/usr/bin".to_string()),
        ("CURRENT_WORKTREE".to_string(), "from-the-shell".to_string()),
    ];
    let layered = vite.env_over(&base);
    assert_eq!(var(&layered, "PATH"), "/usr/bin");
    assert_eq!(var(&layered, "CURRENT_WORKTREE"), "wt2");
    assert_eq!(var(&layered, "VITE_RUBY_PORT"), "3136");
}

#[test]
fn a_unit_without_env_still_carries_the_top_level_layer() {
    let project = accepted(
        r#"
        [env]
        CURRENT_WORKTREE = "wt2"

        [local.rails]
        cmd = ["bin/rails", "s"]
        "#,
    );
    assert_eq!(
        project.local[0].env,
        vec![("CURRENT_WORKTREE".to_string(), "wt2".to_string())]
    );
}

#[test]
fn an_env_value_must_be_a_string() {
    let complaint = rejection("[env]\nPORT = 3000\n");
    assert!(
        complaint.contains("`env.PORT` must be a string"),
        "{complaint}"
    );

    let project = accepted("[local.rails]\ncmd = [\"x\"]\nenv = { PORT = 3000 }\n");
    let problem = project.local[0].problem.clone().unwrap();
    assert!(problem.contains("`local.rails.env.PORT`"), "{problem}");
}

#[test]
fn document_order_is_preserved_rather_than_sorted() {
    let project = accepted(
        r#"
        [local.vite]
        cmd = ["bin/vite", "dev"]

        [local.rails]
        cmd = ["bin/rails", "s"]

        [docker]
        names = ["redis", "db"]

        [includes.zulu]
        path = "~/z"

        [includes.alpha]
        path = "~/a"
        "#,
    );
    assert_eq!(
        project
            .local
            .iter()
            .map(|u| u.name.as_str())
            .collect::<Vec<_>>(),
        ["vite", "rails"]
    );
    assert_eq!(docker_names(&project), ["redis", "db"]);
    assert_eq!(
        project
            .includes
            .iter()
            .map(|i| i.name.as_str())
            .collect::<Vec<_>>(),
        ["zulu", "alpha"]
    );
}

#[test]
fn a_relative_cwd_hangs_off_the_manifests_directory_and_tilde_off_home() {
    let project = accepted(
        r#"
        [local.rails]
        cmd = ["bin/rails", "s"]
        cwd = "backend"

        [local.vite]
        cmd = ["bin/vite", "dev"]
        cwd = "~/projects/tds/harmony"
        "#,
    );
    assert_eq!(project.local[0].cwd, "/tmp/herdr-dev-tests/project/backend");
    assert_eq!(project.local[1].cwd, "/home/tester/projects/tds/harmony");
}

#[test]
fn an_include_without_a_path_complains_and_leaves_the_others_alone() {
    let project = accepted(
        r#"
        [includes.player_server]
        paht = "~/projects/tds/player_server"

        [includes.game_server]
        path = "~/projects/tds/game_server"
        "#,
    );
    assert_eq!(
        project
            .includes
            .iter()
            .map(|i| i.name.as_str())
            .collect::<Vec<_>>(),
        ["game_server"]
    );
    assert!(
        project.problems[0].contains("[includes.player_server]"),
        "{:?}",
        project.problems
    );
}

#[test]
fn a_section_of_the_wrong_shape_is_rejected() {
    for (text, expected) in [
        ("local = \"rails\"\n", "`local` must be a table"),
        ("docker = []\n", "`docker` must be a table"),
        ("includes = 3\n", "`includes` must be a table"),
        ("env = \"none\"\n", "`env` must be a table"),
        (
            "[docker]\nnames = \"db\"\n",
            "`docker.names` must be an array",
        ),
        (
            "[docker]\nhidden = [\"web\", 3]\n",
            "`docker.hidden` must be an array of strings, but element 1 is integer",
        ),
    ] {
        let complaint = rejection(text);
        assert!(
            complaint.contains(expected),
            "{complaint} does not mention {expected}"
        );
    }
}

#[test]
fn an_empty_manifest_is_legal_and_empty() {
    let project = accepted("");
    assert!(project.is_empty());
    assert!(project.problems.is_empty());
    assert_eq!(project.root, "/tmp/herdr-dev-tests/project");
    assert_eq!(project.name, "project");
}

#[test]
fn the_shape_the_manifest_skill_documents_reads_without_a_problem() {
    let project = accepted(
        r#"
        # Merged under every unit's own env.
        [env]

        [local.rails]
        cmd = ["bundle", "exec", "rails", "s"]

        [local.vite]
        cmd = ["bin/vite", "dev"]

        [docker]
        names = ["db", "memcached", "redis"]
        one_shot = ["migrate"]
        hidden = ["web", "sidekiq", "frontend", "minio"]

        [docker.notes]
        harmony = "run `docker compose run --rm harmony rails db:create db:migrate` once, by hand"

        [includes.player_server]
        path = "~/projects/tds/player_server"
        "#,
    );
    assert_eq!(docker_names(&project), ["db", "memcached", "redis"]);
    assert_eq!(
        project.problems,
        [
            "`docker.one_shot` names `migrate`, which is in neither `names` nor `hidden`",
            "[docker.notes] has a note for `harmony`, which is not in `names`",
        ]
    );
    assert_eq!(project.includes[0].path, "/home/tester/projects/tds/player_server");
    assert_eq!(project.local[1].cwd, "/tmp/herdr-dev-tests/project");
}

#[test]
fn an_include_path_is_folded_lexically_and_hangs_off_the_root_when_relative() {
    let project = accepted(
        r#"
        [includes.player_server]
        path = "~/tds/harmony/../player_server/."

        [includes.sibling]
        path = "../sibling"
        "#,
    );
    assert_eq!(project.includes[0].path, "/home/tester/tds/player_server");
    assert_eq!(project.includes[1].path, "/tmp/herdr-dev-tests/sibling");
}

#[test]
fn the_load_error_kinds_each_say_where_and_what() {
    let syntax = parse("[local.rails\n").unwrap_err();
    assert!(matches!(syntax, LoadError::Syntax { .. }));
    assert_eq!(syntax.path(), MANIFEST);
    assert!(!syntax.terse().contains('\n'));
    let schema = parse("ports = 1\n").unwrap_err();
    assert!(matches!(schema, LoadError::Schema { .. }));
    assert_eq!(
        schema.message(),
        format!("{MANIFEST}: unknown top-level key `ports`; expected one of `env`, `local`, `docker`, `includes`")
    );
    assert_eq!(
        schema.terse(),
        "unknown top-level key `ports`; expected one of `env`, `local`, `docker`, `includes`"
    );
}

#[test]
fn a_unit_of_the_wrong_kind_or_with_a_cwd_that_is_not_a_string_is_broken_by_name() {
    let project = accepted(
        r#"
        local = { rails = 3, vite = { cmd = ["v"], cwd = 1 } }
        "#,
    );
    assert_eq!(
        project.problems,
        [
            "[local.rails] must be a table, found integer",
            "[local.vite] `cwd` must be a string, found integer",
        ]
    );
    assert_eq!(project.local[1].cwd, "/tmp/herdr-dev-tests/project");
}

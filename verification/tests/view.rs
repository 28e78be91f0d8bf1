use herdr_dev::manifest::{LoadError, Project};
use herdr_dev::rows::{Row, COLLAPSED_GLYPH, EXPANDED_GLYPH};
use herdr_dev::unit::{key, State, Status, LOCAL};
use herdr_dev::view::{included_repo, Looked, Owner, View, NOT_A_REPO};

const HOME: &str = "/home/tester";
const REPOS: &str = "/repos";

fn load(dir: &str, text: &str) -> Result<Project, LoadError> {
    Project::parse(text, &format!("{dir}/.herdr-dev.toml"), HOME)
}

/// The repos on disk: a directory, and its manifest when it has one.
struct Disk(Vec<(String, Option<String>)>);

impl Disk {
    fn looked(&self, path: &str) -> Looked {
        match self.0.iter().find(|(dir, _)| dir == path) {
            None => Looked::Absent,
            Some((_, None)) => Looked::NoManifest,
            Some((dir, Some(text))) => Looked::Manifest(load(dir, text)),
        }
    }

    fn view(&self, name: &str, text: &str) -> View {
        let dir = format!("{REPOS}/{name}");
        let focused = load(&dir, text).unwrap_or_else(|error| panic!("{}", error.message()));
        let read = focused
            .includes
            .iter()
            .map(|entry| included_repo(&entry.path, HOME, self.looked(&entry.path)))
            .collect();
        View::of(focused, read)
    }
}

fn repo(name: &str, text: &str) -> (String, Option<String>) {
    (format!("{REPOS}/{name}"), Some(text.to_string()))
}

fn shown(view: &View) -> Vec<Row> {
    view.rows(&vec![])
}

fn note_of<'a>(rows: &'a [Row], name: &str) -> &'a str {
    rows.iter()
        .find(|row| row.name == name)
        .map(|row| row.note.as_str())
        .unwrap_or_else(|| panic!("no row named {name} in {rows:?}"))
}

#[test]
fn a_collapsed_row_counts_what_is_inside_without_being_a_unit_itself() {
    let disk = Disk(vec![repo(
        "player_server",
        "[local.rails]\ncmd = [\"rails\", \"s\"]\n[local.vite]\ncmd = [\"bin/vite\"]\n\
         [docker]\nnames = [\"db\", \"redis\", \"minio\"]\nhidden = [\"minio\"]\n",
    )]);
    let view = disk.view(
        "harmony",
        "[local.rails]\ncmd = [\"rails\", \"s\"]\n[includes.player_server]\npath = \"/repos/player_server\"\n",
    );
    let rows = shown(&view);
    assert_eq!(rows.len(), 2, "{rows:?}");
    let repo = &rows[1];
    assert_eq!(repo.name, "player_server");
    assert_eq!(repo.glyph, COLLAPSED_GLYPH);
    assert!(repo.repo);
    assert_eq!((repo.kind, repo.state.as_str(), repo.timing.as_str()), ("", "", ""));
    assert_eq!(repo.note, "2 services + 2 processes, from its own config");
}

#[test]
fn unfolding_reads_the_included_repos_own_manifest_and_folding_it_puts_it_away_again() {
    let disk = Disk(vec![repo(
        "player_server",
        "[local.sidekiq]\ncmd = [\"sidekiq\"]\n[docker]\nnames = [\"db\", \"web\"]\n\
         one_shot = [\"seed\"]\nhidden = [\"web\", \"seed\"]\n[docker.notes]\ndb = \"its own note\"\n",
    )]);
    let mut view = disk.view(
        "harmony",
        "[docker]\nnames = [\"db\"]\n[includes.player_server]\npath = \"/repos/player_server\"\n",
    );
    let rows = shown(&view);
    view.toggle(&rows[1]).expect("the repo unfolds");

    let rows = shown(&view);
    assert_eq!(
        rows.iter().map(|row| row.name.as_str()).collect::<Vec<_>>(),
        ["db", "player_server", "db", "sidekiq"],
    );
    assert_eq!(rows[1].glyph, EXPANDED_GLYPH);
    assert_eq!(rows[2].owner, Owner::Included(0));
    assert_eq!(rows[2].note, "its own note");
    assert!(rows[2].indent && rows[3].indent);
    assert_eq!(rows[0].owner, Owner::Focused);
    assert!(!rows[0].indent);

    view.toggle(&rows[1]).expect("the repo folds again");
    assert_eq!(shown(&view).len(), 2);
}

#[test]
fn an_include_inside_an_included_manifest_is_never_followed_and_the_row_says_so() {
    let disk = Disk(vec![
        repo("game_server", "[local.rails]\ncmd = [\"rails\", \"s\"]\n"),
        repo(
            "player_server",
            "[local.sidekiq]\ncmd = [\"sidekiq\"]\n[includes.game_server]\npath = \"/repos/game_server\"\n",
        ),
    ]);
    let mut view = disk.view("harmony", "[includes.player_server]\npath = \"/repos/player_server\"\n");
    let rows = shown(&view);
    assert_eq!(rows[0].note, "1 process, from its own config; its own 1 include is not followed");
    view.toggle(&rows[0]).expect("the repo unfolds");
    let rows = shown(&view);
    assert_eq!(
        rows.iter().map(|row| row.name.as_str()).collect::<Vec<_>>(),
        ["player_server", "sidekiq"],
    );
}

#[test]
fn a_verbs_project_is_the_one_that_owns_the_row_rather_than_the_one_being_looked_at() {
    let disk = Disk(vec![repo("player_server", "[local.rails]\ncmd = [\"rails\", \"s\"]\n")]);
    let mut view = disk.view(
        "harmony",
        "[local.rails]\ncmd = [\"rails\", \"s\"]\n[includes.player_server]\npath = \"/repos/player_server\"\n",
    );
    let rows = shown(&view);
    view.toggle(&rows[1]).expect("the repo unfolds");
    let rows = shown(&view);
    assert_eq!(view.project(rows[0].owner).map(|p| p.root.clone()), Some(view.focused().root.clone()));
    assert_eq!(view.project(rows[2].owner).map(|p| p.root.clone()), Some("/repos/player_server".to_string()));
    assert_eq!(rows[0].name, rows[2].name, "the same unit name in both");
}

#[test]
fn only_what_is_on_screen_is_asked_about() {
    let disk = Disk(vec![repo("player_server", "[docker]\nnames = [\"db\"]\n")]);
    let mut view = disk.view("harmony", "[includes.player_server]\npath = \"/repos/player_server\"\n");
    assert_eq!(view.on_screen().len(), 1, "a collapsed repo is not read from");
    let rows = shown(&view);
    view.toggle(&rows[0]).expect("the repo unfolds");
    assert_eq!(view.on_screen().len(), 2);
}

#[test]
fn the_unfolded_rows_wear_the_statuses_of_their_own_project() {
    let disk = Disk(vec![repo("player_server", "[local.rails]\ncmd = [\"rails\", \"s\"]\n")]);
    let mut view = disk.view(
        "harmony",
        "[local.rails]\ncmd = [\"rails\", \"s\"]\n[includes.player_server]\npath = \"/repos/player_server\"\n",
    );
    let rows = shown(&view);
    view.toggle(&rows[1]).expect("the repo unfolds");
    let statuses = vec![(Owner::Included(0), vec![(key(LOCAL, "rails"), Status::of(State::Up))])];
    let rows = view.rows(&statuses);
    assert_eq!(rows[0].state, "down", "the focused project's own row is untouched");
    assert_eq!(rows[2].state, "up");
}

#[test]
fn every_include_that_cannot_be_read_says_what_is_wrong_where_it_stands() {
    let disk = Disk(vec![
        ("/repos/no_manifest".to_string(), None),
        repo("broken", "[local.rails\n"),
        repo("twice", "[local.rails]\ncmd = [\"rails\"]\n"),
    ]);
    let mut view = disk.view(
        "harmony",
        "[includes.missing]\npath = \"/repos/nowhere\"\n\
         [includes.no_manifest]\npath = \"/repos/no_manifest\"\n\
         [includes.broken]\npath = \"/repos/broken\"\n\
         [includes.myself]\npath = \"/repos/harmony\"\n\
         [includes.twice]\npath = \"/repos/twice\"\n\
         [includes.again]\npath = \"/repos/twice\"\n",
    );
    let rows = shown(&view);
    assert_eq!(rows.len(), 6, "{rows:?}");
    assert!(rows.iter().all(|row| row.repo && row.glyph == COLLAPSED_GLYPH));
    assert_eq!(note_of(&rows, "missing"), "no repo at /repos/nowhere");
    assert_eq!(note_of(&rows, "no_manifest"), "no .herdr-dev.toml in /repos/no_manifest");
    let broken_note = note_of(&rows, "broken");
    assert!(broken_note.starts_with("broken .herdr-dev.toml: TOML parse error"), "{broken_note}");
    assert_eq!(broken_note.lines().count(), 1, "{broken_note}");
    assert_eq!(note_of(&rows, "myself"), "this project itself, so there is nothing to unfold");
    assert_eq!(note_of(&rows, "twice"), "1 process, from its own config");
    assert_eq!(note_of(&rows, "again"), "the same repo as `twice` above");

    for row in &rows {
        let unfolded = view.toggle(row);
        if row.name == "twice" {
            assert!(unfolded.is_ok());
            continue;
        }
        assert_eq!(unfolded.as_ref().err().map(String::as_str), Some(row.note.as_str()));
    }
}

#[test]
fn a_relative_or_doubled_back_include_path_is_the_same_repo_as_its_plain_spelling() {
    let disk = Disk(vec![repo("player_server", "[local.rails]\ncmd = [\"rails\"]\n")]);
    let view = disk.view(
        "harmony",
        "[includes.plain]\npath = \"../player_server\"\n\
         [includes.doubled]\npath = \"../harmony/../player_server\"\n",
    );
    let rows = shown(&view);
    assert_eq!(view.project(rows[0].owner).map(|p| p.root.clone()), Some("/repos/player_server".to_string()));
    assert_eq!(note_of(&rows, "doubled"), "the same repo as `plain` above");
}

#[test]
fn a_manifests_own_complaints_are_the_focused_ones_plus_an_unfolded_repos_under_its_name() {
    let disk = Disk(vec![repo("player_server", "[local.rails]\ncwd = \"/tmp\"\n[docker]\nnames = [\"db\"]\n")]);
    let mut view = disk.view(
        "harmony",
        "[docker]\nnames = [\"db\"]\none_shot = [\"ghost\"]\n\
         [includes.player_server]\npath = \"/repos/player_server\"\n[includes.nameless]\nwrong = 1\n",
    );
    let folded = view.complaints();
    assert_eq!(folded.len(), 2, "{folded:?}");
    assert!(folded[0].contains("`ghost`"), "{folded:?}");
    assert!(folded[1].contains("[includes.nameless]"), "{folded:?}");

    let rows = shown(&view);
    view.toggle(&rows[1]).expect("the repo unfolds");
    let unfolded = view.complaints();
    assert_eq!(unfolded.len(), 3, "{unfolded:?}");
    assert!(unfolded[2].starts_with("player_server: [local.rails]"), "{unfolded:?}");
}

#[test]
fn a_repo_row_is_the_only_thing_tab_moves() {
    let disk = Disk(vec![]);
    let mut view = disk.view("harmony", "[local.rails]\ncmd = [\"rails\"]\n");
    let rows = shown(&view);
    assert_eq!(view.toggle(&rows[0]).unwrap_err(), NOT_A_REPO);
}

#[test]
fn a_repo_with_nothing_in_its_manifest_says_that_rather_than_counting_to_zero() {
    let disk = Disk(vec![repo("player_server", "[env]\n")]);
    let view = disk.view("harmony", "[includes.player_server]\npath = \"/repos/player_server\"\n");
    assert_eq!(shown(&view)[0].note, "nothing to run, from its own config");
}

#[test]
fn a_repo_under_home_is_named_from_the_tilde() {
    assert_eq!(
        included_repo("/home/tester/repos/x", HOME, Looked::Absent).unwrap_err(),
        "no repo at ~/repos/x"
    );
    assert_eq!(
        included_repo("/home/tester/file", HOME, Looked::NotADirectory).unwrap_err(),
        "not a directory: ~/file"
    );
}

use herdr_dev::herdr::Snapshot;
use herdr_dev::json::{Json, Num};
use herdr_dev::manifest::{LoadError, Project};
use herdr_dev::project::{all_candidates, locate, nearest_manifest, starts, Resolution, MANIFEST_NAME};
use herdr_dev::tree::Toml;
use serde_json::Value;

const HOME: &str = "/home/tester";

fn tree(value: &Value) -> Json {
    match value {
        Value::Null => Json::Null,
        Value::Bool(b) => Json::Bool(*b),
        Value::Number(n) => match (n.as_u64(), n.as_i64()) {
            (Some(u), _) => Json::Num(Num::Pos(u)),
            (None, Some(i)) => Json::Num(Num::Neg(i)),
            _ => Json::Num(Num::Float),
        },
        Value::String(s) => Json::Str(s.clone()),
        Value::Array(items) => Json::Array(items.iter().map(tree).collect()),
        Value::Object(members) => Json::Object(
            members
                .iter()
                .map(|(key, value)| (key.clone(), tree(value)))
                .collect(),
        ),
    }
}

fn snapshot(text: &str) -> Snapshot {
    Snapshot::from_value(&tree(&serde_json::from_str::<Value>(text).expect("json")))
}

/// The nearest manifest among `files`, standing in for what is on disk.
fn located(snapshot: &Snapshot, files: &[String]) -> Option<String> {
    let candidates = all_candidates(&starts(snapshot, HOME));
    let present: Vec<bool> = candidates.iter().map(|c| files.contains(c)).collect();
    nearest_manifest(&candidates, &present)
}

fn manifest(dir: &str) -> String {
    format!("{dir}/{MANIFEST_NAME}")
}

/// A manifest that loads: one local unit.
fn loaded(path: &str) -> Result<Project, LoadError> {
    let doc = vec![(
        "local".to_string(),
        Toml::Table(vec![(
            "rails".to_string(),
            Toml::Table(vec![(
                "cmd".to_string(),
                Toml::Array(vec![Toml::Str("rails".into()), Toml::Str("s".into())]),
            )]),
        )]),
    )];
    Project::from_document(Ok(doc), path, HOME)
}

fn resolved(snapshot: &Snapshot, files: &[String]) -> Resolution {
    Resolution::of(located(snapshot, files).map(|path| loaded(&path)))
}

#[test]
fn the_pane_beats_the_workspace() {
    let pane_manifest = manifest("/t/checkout-a");
    let files = vec![pane_manifest.clone(), manifest("/t/checkout-b")];
    let snapshot = snapshot(
        r#"{
            "focused_workspace_id": "w1",
            "focused_pane_id": "w1:p1",
            "workspaces": [{"workspace_id": "w1", "worktree": {"checkout_path": "/t/checkout-b"}}],
            "panes": [{"pane_id": "w1:p1", "workspace_id": "w1", "cwd": "/t/checkout-a/app"}]
        }"#,
    );
    let resolution = resolved(&snapshot, &files);
    assert_eq!(resolution.project.map(|project| project.manifest), Some(pane_manifest));
    assert_eq!(resolution.complaint, None);
}

#[test]
fn the_workspace_answers_when_the_pane_sits_outside_any_project() {
    let workspace_manifest = manifest("/t/checkout-b");
    let files = vec![workspace_manifest.clone()];
    let snapshot = snapshot(
        r#"{
            "focused_workspace_id": "w1",
            "focused_pane_id": "w1:p1",
            "workspaces": [{"workspace_id": "w1"}],
            "panes": [
                {"pane_id": "w1:p1", "workspace_id": "w1", "cwd": "/t/elsewhere"},
                {"pane_id": "w1:p2", "workspace_id": "w1", "cwd": "/t/checkout-b/lib"}
            ]
        }"#,
    );
    let resolution = resolved(&snapshot, &files);
    assert_eq!(resolution.project.map(|project| project.manifest), Some(workspace_manifest));
}

#[test]
fn no_manifest_anywhere_is_the_empty_state_without_a_complaint() {
    let snapshot = snapshot(
        r#"{
            "focused_workspace_id": "w1",
            "focused_pane_id": "w1:p1",
            "panes": [{"pane_id": "w1:p1", "workspace_id": "w1", "cwd": "/t/nowhere"}]
        }"#,
    );
    let resolution = resolved(&snapshot, &[]);
    assert!(resolution.project.is_none());
    assert_eq!(resolution.complaint, None);
}

#[test]
fn a_broken_manifest_complains_instead_of_being_found() {
    let path = manifest("/t/harmony");
    let resolution = Resolution::of(Some(Project::from_document(
        Err("unclosed table".to_string()),
        &path,
        HOME,
    )));
    assert!(resolution.project.is_none());
    assert!(resolution.complaint.unwrap_or_default().contains(MANIFEST_NAME));
}

#[test]
fn the_innermost_manifest_wins_and_a_missing_answer_counts_as_none() {
    let candidates = vec!["/a/b/.herdr-dev.toml".to_string(), "/a/.herdr-dev.toml".to_string()];
    assert_eq!(nearest_manifest(&candidates, &vec![true, true]), Some(candidates[0].clone()));
    assert_eq!(nearest_manifest(&candidates, &vec![false, true]), Some(candidates[1].clone()));
    assert_eq!(nearest_manifest(&candidates, &vec![false]), None);
    assert_eq!(
        all_candidates(&vec!["/a/b".to_string(), "/c".to_string()]),
        vec![
            "/a/b/.herdr-dev.toml".to_string(),
            "/a/.herdr-dev.toml".to_string(),
            "/.herdr-dev.toml".to_string(),
            "/c/.herdr-dev.toml".to_string(),
            "/.herdr-dev.toml".to_string(),
        ]
    );
}

#[test]
fn the_first_start_with_a_manifest_above_it_answers() {
    let starts = vec!["/a/b".to_string(), "/c".to_string()];
    let candidates = all_candidates(&starts);
    let present: Vec<bool> = candidates.iter().map(|c| c == "/c/.herdr-dev.toml").collect();
    assert_eq!(locate(&starts, &present), Some("/c/.herdr-dev.toml".to_string()));
    assert_eq!(locate(&starts, &vec![]), None);
}

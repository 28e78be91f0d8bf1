use herdr_dev::json::{Json, Num};
use herdr_dev::layout::{find_cwd, leftmost, moves, sibling, Branch, Move, Side};
use serde_json::Value;

fn tree(value: &Value) -> Json {
    match value {
        Value::Null => Json::Null,
        Value::Bool(b) => Json::Bool(*b),
        Value::Number(n) => match (n.as_u64(), n.as_i64()) {
            (Some(u), _) => Json::Num(Num::Pos(u)),
            (None, Some(i)) => Json::Num(Num::Neg(i)),
            _ => Json::Num(Num::Float),
        },
        Value::String(s) => Json::Str(s.clone()),
        Value::Array(items) => Json::Array(items.iter().map(tree).collect()),
        Value::Object(members) => Json::Object(
            members
                .iter()
                .map(|(key, value)| (key.clone(), tree(value)))
                .collect(),
        ),
    }
}

fn json(text: &str) -> Json {
    tree(&serde_json::from_str::<Value>(text).expect("json"))
}

/// p1 on the left; p2 above p3 on the right.
const TAB: &str = r#"{
    "type": "split", "direction": "right", "ratio": 0.5,
    "first": {"type": "pane", "pane_id": "p1", "cwd": "/repos/harmony"},
    "second": {
        "type": "split", "direction": "down", "ratio": 0.3,
        "first": {"type": "pane", "pane_id": "p2", "cwd": "/repos/harmony/app"},
        "second": {"type": "pane", "pane_id": "p3", "cwd": "/tmp"}
    }
}"#;

fn step(pane: &str, target: &str, at: &[Branch]) -> Move {
    Move {
        pane_id: pane.to_string(),
        target_pane_id: target.to_string(),
        at: at.to_vec(),
    }
}

#[test]
fn a_tab_is_replayed_top_down_around_its_leading_pane() {
    let root = json(TAB);
    assert_eq!(leftmost(&root), Some("p1".to_string()));
    assert_eq!(
        moves(&root, "p1"),
        Some(vec![step("p2", "p1", &[]), step("p3", "p2", &[Branch::Second])])
    );
}

#[test]
fn a_tab_of_one_pane_needs_no_moves() {
    let root = json(r#"{"type": "pane", "pane_id": "p9"}"#);
    assert_eq!(leftmost(&root), Some("p9".to_string()));
    assert_eq!(moves(&root, "p9"), Some(vec![]));
}

#[test]
fn a_leaf_without_an_id_or_a_split_without_a_child_is_refused() {
    let root = json(r#"{"type": "split", "first": {"type": "pane", "pane_id": "p1"}, "second": {"type": "pane"}}"#);
    assert_eq!(moves(&root, "p1"), None);
    let root = json(r#"{"type": "split", "first": {"type": "pane", "pane_id": "p1"}}"#);
    assert_eq!(moves(&root, "p1"), None);
    assert_eq!(leftmost(&json("null")), None);
}

#[test]
fn the_focused_panes_directory_is_found_wherever_it_sits() {
    let root = json(TAB);
    assert_eq!(find_cwd(&root, "p3"), Some("/tmp".to_string()));
    assert_eq!(find_cwd(&root, "p1"), Some("/repos/harmony".to_string()));
    assert_eq!(find_cwd(&root, "p7"), None);
}

#[test]
fn each_edge_asks_for_its_own_split_and_a_leading_edge_swaps_back() {
    assert_eq!(Side::named("top"), Some(Side::Top));
    assert_eq!(Side::named("sideways"), None);
    assert_eq!(Side::Top.direction(), "down");
    assert_eq!(Side::Bottom.direction(), "down");
    assert_eq!(Side::Left.direction(), "right");
    assert_eq!(Side::Right.direction(), "right");
    assert!(Side::Top.leads() && Side::Left.leads());
    assert!(!Side::Bottom.leads() && !Side::Right.leads());
}

#[test]
fn the_fresh_tab_takes_the_place_of_the_focused_one_among_its_workspaces_tabs() {
    let tabs = vec![
        json(r#"{"tab_id": "t1", "workspace_id": "w1", "label": "one"}"#),
        json(r#"{"tab_id": "t2", "workspace_id": "w2", "label": "other"}"#),
        json(r#"{"tab_id": "t3", "workspace_id": "w1", "label": "three"}"#),
    ];
    assert_eq!(sibling(&tabs, Some("w1"), Some("t3")), Some((1, 2)));
    assert_eq!(sibling(&tabs, Some("w1"), Some("t9")), Some((0, 0)));
    assert_eq!(sibling(&tabs, Some("w3"), Some("t1")), None);
}

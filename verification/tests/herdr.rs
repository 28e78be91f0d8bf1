use herdr_dev::herdr::{expand_tilde, push_unique, socket_path, Error, Pane, Snapshot, Workspace};
use herdr_dev::project::{candidates, starts, Resolution};

const HOME: &str = "/home/tester";

fn text(s: &str) -> Option<String> {
    Some(s.to_string())
}

fn pane(id: &str, workspace: Option<&str>, cwd: &str) -> Pane {
    Pane {
        pane_id: text(id),
        workspace_id: workspace.map(str::to_string),
        cwd: text(cwd),
    }
}

fn workspace(id: &str, checkout: Option<&str>, repo: Option<&str>) -> Workspace {
    Workspace {
        workspace_id: text(id),
        checkout_path: checkout.map(str::to_string),
        repo_root: repo.map(str::to_string),
    }
}

fn empty() -> Snapshot {
    Snapshot {
        focused_workspace_id: None,
        focused_pane_id: None,
        workspaces: Vec::new(),
        panes: Vec::new(),
    }
}

fn snapshot() -> Snapshot {
    Snapshot {
        focused_workspace_id: text("w7"),
        focused_pane_id: text("w7:p6"),
        workspaces: vec![
            workspace("w5", Some("/repos/other"), None),
            workspace("w7", None, None),
        ],
        panes: vec![
            pane("w5:p1", Some("w5"), "/repos/other"),
            pane("w7:p2", Some("w7"), "/repos/harmony"),
            pane("w7:p6", Some("w7"), "/repos/harmony/app/models"),
        ],
    }
}

#[test]
fn the_focused_pane_supplies_its_own_directory() {
    assert_eq!(
        snapshot().focused_pane_cwd(HOME),
        Some("/repos/harmony/app/models".to_string())
    );
}

#[test]
fn a_pane_that_vanished_between_snapshots_is_not_fatal() {
    let snapshot = Snapshot {
        focused_pane_id: text("w7:p6"),
        panes: vec![Pane {
            pane_id: text("w7:p2"),
            workspace_id: None,
            cwd: text("/repos/harmony"),
        }],
        ..empty()
    };
    assert_eq!(snapshot.focused_pane_cwd(HOME), None);
}

#[test]
fn the_workspace_fallback_stays_inside_the_focused_workspace() {
    assert_eq!(
        snapshot().focused_workspace_cwds(HOME),
        vec![
            "/repos/harmony".to_string(),
            "/repos/harmony/app/models".to_string(),
        ]
    );
}

#[test]
fn a_worktree_checkout_leads_the_workspace_fallback() {
    let snapshot = Snapshot {
        focused_workspace_id: text("w7"),
        workspaces: vec![workspace(
            "w7",
            Some("/repos/harmony-wt2"),
            Some("/repos/harmony"),
        )],
        panes: vec![pane("w7:p1", Some("w7"), "/tmp")],
        ..empty()
    };
    assert_eq!(
        snapshot.focused_workspace_cwds(HOME),
        vec![
            "/repos/harmony-wt2".to_string(),
            "/repos/harmony".to_string(),
            "/tmp".to_string(),
        ]
    );
}

#[test]
fn an_empty_snapshot_yields_no_candidates() {
    let snapshot = empty();
    assert_eq!(snapshot.focused_pane_cwd(HOME), None);
    assert!(snapshot.focused_workspace_cwds(HOME).is_empty());
}

#[test]
fn a_directory_named_twice_is_looked_in_once_and_a_tilde_is_spelled_out() {
    let snapshot = Snapshot {
        focused_workspace_id: text("w1"),
        focused_pane_id: text("w1:p2"),
        workspaces: vec![workspace("w1", Some("~/repos/a"), Some("~/repos/a"))],
        panes: vec![
            pane("w1:p1", Some("w1"), "~/repos/a"),
            pane("w1:p2", Some("w1"), "~/repos/a/lib"),
            pane("w2:p1", Some("w2"), "/elsewhere"),
        ],
    };
    assert_eq!(
        snapshot.focused_pane_cwd(HOME),
        Some("/home/tester/repos/a/lib".to_string())
    );
    assert_eq!(
        snapshot.focused_workspace_cwds(HOME),
        vec![
            "/home/tester/repos/a".to_string(),
            "/home/tester/repos/a/lib".to_string(),
        ]
    );
    assert_eq!(
        starts(&snapshot, HOME),
        vec![
            "/home/tester/repos/a/lib".to_string(),
            "/home/tester/repos/a".to_string(),
            "/home/tester/repos/a/lib".to_string(),
        ]
    );
}

#[test]
fn the_pane_is_looked_in_before_the_workspace() {
    let snapshot = Snapshot {
        focused_workspace_id: text("w1"),
        focused_pane_id: text("w1:p1"),
        workspaces: vec![workspace("w1", Some("/t/checkout-b"), None)],
        panes: vec![pane("w1:p1", Some("w1"), "/t/checkout-a/app")],
    };
    assert_eq!(
        starts(&snapshot, HOME),
        vec!["/t/checkout-a/app".to_string(), "/t/checkout-b".to_string(), "/t/checkout-a/app".to_string()]
    );
}

#[test]
fn a_manifest_is_looked_for_innermost_first_up_to_the_root() {
    assert_eq!(
        candidates("/repos/harmony/app"),
        vec![
            "/repos/harmony/app/.herdr-dev.toml".to_string(),
            "/repos/harmony/.herdr-dev.toml".to_string(),
            "/repos/.herdr-dev.toml".to_string(),
            "/.herdr-dev.toml".to_string(),
        ]
    );
    assert_eq!(
        candidates("repo/"),
        vec!["repo/.herdr-dev.toml".to_string(), ".herdr-dev.toml".to_string()]
    );
    assert_eq!(candidates("/"), vec!["/.herdr-dev.toml".to_string()]);
}

#[test]
fn nothing_found_is_the_empty_state_and_a_failed_load_is_the_complaint() {
    let nothing = Resolution::of(None);
    assert!(nothing.project.is_none());
    assert_eq!(nothing.complaint, None);
    let broken = Resolution::of(Some(Err(herdr_dev::manifest::LoadError::Syntax {
        path: "/r/.herdr-dev.toml".to_string(),
        message: "expected `]`".to_string(),
    })));
    assert!(broken.project.is_none());
    assert_eq!(
        broken.complaint.as_deref(),
        Some("/r/.herdr-dev.toml: expected `]`")
    );
    let bare = Resolution::nothing();
    assert!(bare.project.is_none() && bare.complaint.is_none());
}

#[test]
fn the_socket_sits_under_home_and_a_refusal_reads_as_herdr_said_it() {
    assert_eq!(socket_path(HOME), "/home/tester/.config/herdr/herdr.sock");
    assert_eq!(expand_tilde("~", HOME), "/home/tester/");
    assert_eq!(expand_tilde("~user/x", HOME), "~user/x");
    let refused = Error::Remote {
        code: "not_found".to_string(),
        message: "no such pane".to_string(),
    };
    assert_eq!(refused.message(), "herdr refused: not_found: no such pane");
    let mut dirs = vec!["/a".to_string()];
    push_unique(&mut dirs, "/a".to_string());
    push_unique(&mut dirs, "/b".to_string());
    assert_eq!(dirs, ["/a", "/b"]);
}

#[test]
fn a_tilde_gives_way_to_home_whatever_separators_follow_it() {
    assert_eq!(expand_tilde("~//x", "/h"), "/h/x");
    assert_eq!(expand_tilde("~/x", "/h"), "/h/x");
    assert_eq!(expand_tilde("~/./x/", "/h"), "/h/x");
    assert_eq!(expand_tilde("~", "/h"), "/h/");
    assert_eq!(expand_tilde("~user/x", "/h"), "~user/x");
    assert_eq!(expand_tilde("/a/~", "/h"), "/a/~");
    assert_eq!(expand_tilde("rel", "/h"), "rel");
}

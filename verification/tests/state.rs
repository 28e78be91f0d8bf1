use herdr_dev::state::{lock_path, root, socket_path};

#[test]
fn the_socket_and_the_lock_sit_side_by_side_in_the_root() {
    let root = "/state/herdr-dev";
    assert_eq!(socket_path(root), "/state/herdr-dev/daemon.sock");
    assert_eq!(lock_path(root), "/state/herdr-dev/daemon.lock");
}

#[test]
fn the_root_is_the_plugin_state_directory_under_home() {
    assert_eq!(
        root("/Users/kirill"),
        "/Users/kirill/.local/state/herdr/plugins/herdr-dev"
    );
}

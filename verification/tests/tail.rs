use herdr_dev::tail::{written, Follower, Fresh, RESTARTED};

/// One read of a file on `inode` holding `content`, as the pane makes it.
fn read(follower: &mut Follower, inode: u64, content: &str) -> Fresh {
    let (offset, restarted) = follower.start(1, inode, content.len() as u64);
    let bytes = content.as_bytes()[offset as usize..].to_vec();
    follower.took(1, inode, offset, restarted, bytes)
}

fn text(fresh: &Fresh) -> String {
    String::from_utf8_lossy(&fresh.bytes).into_owned()
}

#[test]
fn a_follower_reads_the_file_once_and_then_only_what_was_appended() {
    let mut follower = Follower::watching("/logs/local-vite.log".to_string());
    assert_eq!(text(&read(&mut follower, 7, "one\n")), "one\n");
    assert_eq!(read(&mut follower, 7, "one\n"), Fresh::default());
    let fresh = read(&mut follower, 7, "one\ntwo\n");
    assert_eq!((text(&fresh), fresh.restarted), ("two\n".to_string(), false));
}

#[test]
fn a_log_truncated_under_the_follower_is_read_from_the_start_of_the_fresh_file() {
    let mut follower = Follower::watching("/logs/local-vite.log".to_string());
    read(&mut follower, 7, "a long first generation\n");
    let fresh = read(&mut follower, 7, "second\n");
    assert_eq!((text(&fresh), fresh.restarted), ("second\n".into(), true));
    assert_eq!(read(&mut follower, 7, "second\n"), Fresh::default());
}

#[test]
fn a_log_rotated_out_from_under_the_follower_is_read_from_the_start_too() {
    let mut follower = Follower::watching("/logs/local-vite.log".to_string());
    read(&mut follower, 7, "first\n");
    let fresh = read(&mut follower, 8, "a longer second generation\n");
    assert!(fresh.restarted);
    assert_eq!(text(&fresh), "a longer second generation\n");
}

#[test]
fn a_follower_started_at_the_tail_takes_in_whole_lines_only_and_then_follows_as_usual() {
    let mut follower = Follower::watching_tail("/logs/local-vite.log".to_string(), 9);
    assert_eq!(text(&read(&mut follower, 7, "one\ntwo\nthree\n")), "three\n");
    assert_eq!(text(&read(&mut follower, 7, "one\ntwo\nthree\nfour\n")), "four\n");
}

#[test]
fn a_follower_started_at_the_tail_of_a_short_log_still_reads_all_of_it() {
    let mut follower = Follower::watching_tail("/logs/local-vite.log".to_string(), 4096);
    assert_eq!(text(&read(&mut follower, 7, "one\ntwo\n")), "one\ntwo\n");
}

#[test]
fn a_log_that_does_not_exist_yet_is_waited_for_rather_than_refused() {
    let mut follower = Follower::watching("/logs/local-vite.log".to_string());
    follower.missing();
    assert_eq!(text(&read(&mut follower, 7, "started\n")), "started\n");
    assert_eq!(follower.path(), "/logs/local-vite.log");
}

#[test]
fn a_restart_is_announced_in_the_pane() {
    let mut follower = Follower::watching("/logs/local-vite.log".to_string());
    let mut out: Vec<u8> = Vec::new();
    out.extend(written(&read(&mut follower, 7, "first\n")));
    out.extend(written(&read(&mut follower, 7, "x\n")));
    assert_eq!(String::from_utf8_lossy(&out), format!("first\n{RESTARTED}\nx\n"));
    assert!(written(&Fresh::default()).is_empty());
}

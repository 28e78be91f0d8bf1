use herdr_dev::rows::{Row, UNKNOWN_GLYPH};
use herdr_dev::tui::{
    cells, elide, notice_room, pad, stepped, wrap, GAP, INDENT, STATE_WIDTH, TIMING_WIDTH,
};
use herdr_dev::client::{Peer, Target};
use herdr_dev::daemon::PROTOCOL;
use herdr_dev::manifest::Project;
use herdr_dev::peek::NO_REPO_LOG;
use herdr_dev::popup::{
    checked_log, daemon_report, heading, log_target, notice_lines, notices, selected, Notice, Tone,
    DAEMON_SKEWED, NO_DAEMON, NO_DOCKER_LOG, NO_VERB,
};
use herdr_dev::store::Store;
use herdr_dev::view::{Owner, View};

fn row(name: &str, kind: &'static str, note: &str) -> Row {
    Row {
        glyph: UNKNOWN_GLYPH,
        name: name.to_string(),
        kind,
        state: String::new(),
        timing: String::new(),
        note: note.to_string(),
        owner: Owner::Focused,
        indent: false,
        repo: false,
    }
}

#[test]
fn columns_line_up_across_rows_and_the_note_comes_last() {
    let rows = [
        row("db", "docker", "unhealthy"),
        row("player_server", "", "from its own config"),
    ];
    let lines: Vec<String> = rows.iter().map(|r| cells(r, 13).join("")).collect();
    let note_at: Vec<Option<usize>> = lines
        .iter()
        .zip(["unhealthy", "from its own config"])
        .map(|(line, note)| line.find(note))
        .collect();
    assert_eq!(note_at[0], note_at[1]);
    assert!(note_at[0].is_some());
}

#[test]
fn an_unfolded_row_is_stepped_in_without_taking_the_other_columns_with_it() {
    let mut inner = row("rails", "local", "");
    inner.indent = true;
    let outer = row("rails", "local", "");
    let inner_cells = cells(&inner, 8);
    let outer_cells = cells(&outer, 8);
    assert_eq!(inner_cells[1], format!("{INDENT}rails  "));
    assert_eq!(inner_cells[1].chars().count(), outer_cells[1].chars().count());
    assert_eq!(inner_cells[2], outer_cells[2]);
}

#[test]
fn a_blank_state_still_holds_its_column_open() {
    let cells = cells(&row("db", "docker", ""), 8);
    assert_eq!(cells[3].trim(), "");
    assert_eq!(cells[3].len(), STATE_WIDTH + GAP);
    assert_eq!(cells[4].len(), TIMING_WIDTH + GAP);
}

#[test]
fn the_notices_never_take_the_last_row_of_the_list() {
    assert_eq!(notice_room(24), 12);
    assert_eq!(notice_room(4), 1);
    assert_eq!(notice_room(3), 0);
}

#[test]
fn a_name_longer_than_its_column_is_not_truncated() {
    let cells = cells(&row("a_very_long_unit_name", "local", ""), 8);
    assert!(cells[1].starts_with("a_very_long_unit_name"));
}

#[test]
fn the_cursor_stops_at_both_ends_rather_than_wrapping() {
    assert_eq!(stepped(0, -1, 3), 0);
    assert_eq!(stepped(2, 1, 3), 2);
    assert_eq!(stepped(1, 1, 3), 2);
    assert_eq!(stepped(0, 5, 0), 0);
    assert_eq!(stepped(2, -10, 3), 0);
}

#[test]
fn a_notice_too_long_for_the_width_is_wrapped_whole_rather_than_clipped() {
    let long = "a repo row has no single log; expand it with tab";
    let lines = wrap(long, 20);
    assert!(lines.len() > 1, "{lines:?}");
    assert!(lines.iter().all(|line| line.chars().count() <= 20));
    assert_eq!(lines.join(" "), long);
    assert_eq!(wrap("   ", 10), [""]);
    assert_eq!(wrap("averyveryverylongword x", 5), ["averyveryverylongword", "x"]);
}

#[test]
fn a_heading_with_no_room_left_keeps_its_tail() {
    let tag = "daemon 0.1.0  pid 4242";
    let long = "~/projects/tds/very/deeply/nested/checkouts/harmony-wt2";
    let (title, filler) = heading(long, tag, 60);
    let line = format!("{title}{}{tag}", " ".repeat(filler));
    assert!(line.ends_with("daemon 0.1.0  pid 4242"), "{line:?}");
    assert!(line.starts_with('…'), "{line:?}");
    assert!(line.contains("checkouts/harmony-wt2"), "{line:?}");
    assert_eq!(line.chars().count(), 60);
    assert_eq!(elide("~/projects/tds/harmony", 40), "~/projects/tds/harmony");
    assert_eq!(elide("~/repos/harmony", 100), "~/repos/harmony");
    assert_eq!(elide("~/repos/harmony", 8), "…harmony");
    assert_eq!(elide("~/repos/harmony", 0), "");
    assert_eq!(pad("ab", 3), "ab  ");
}

/// The include here names a directory that does not exist, so the repo row carries the reason
/// rather than a manifest: a row no verb reaches.
fn view(text: &str) -> View {
    let project = Project::parse(text, "/repos/harmony/.herdr-dev.toml", "/home/tester")
        .unwrap_or_else(|error| panic!("{}", error.message()));
    let read = project
        .includes
        .iter()
        .map(|_| Err("no such directory".to_string()))
        .collect();
    View::of(project, read)
}

fn shown(view: &View) -> Vec<Row> {
    view.rows(&vec![])
}

fn said(lines: &[(String, Tone)]) -> Vec<String> {
    lines.iter().map(|(text, _)| text.clone()).collect()
}

const THREE: &str = "[local.vite]\ncmd = [\"bin/vite\"]\n[docker]\nnames = [\"db\"]\n\
                     [includes.player_server]\npath = \"/repos/player_server\"\n";

#[test]
fn a_verb_finds_the_unit_under_the_cursor_of_either_kind_and_refuses_a_repo_row() {
    let view = view(THREE);
    let manifest = view.focused();
    let rows = shown(&view);
    assert_eq!(selected(&view, &rows, 0), Ok((manifest, Target::Docker(&manifest.docker[0]))));
    assert_eq!(selected(&view, &rows, 1), Ok((manifest, Target::Local(&manifest.local[0]))));
    assert_eq!(selected(&view, &rows, 2).unwrap_err(), NO_VERB);
    assert!(selected(&view, &rows, 9).is_err());
}

#[test]
fn only_a_local_row_has_a_log_to_overlay() {
    let view = view(THREE);
    let rows = shown(&view);
    let store = Store::at("/state/herdr-dev".to_string());
    assert_eq!(log_target(&store, &view, &rows, 0).unwrap_err(), NO_DOCKER_LOG);
    assert_eq!(log_target(&store, &view, &rows, 2).unwrap_err(), NO_REPO_LOG);
    // No such log exists under that root, so the local row refuses an empty overlay too.
    let complaint = checked_log(log_target(&store, &view, &rows, 1), false, "vite").unwrap_err();
    assert!(complaint.contains("no log yet for vite"), "{complaint}");
    let path = log_target(&store, &view, &rows, 1).expect("a local row has a log path");
    assert!(path.starts_with("/state/herdr-dev/projects/"), "{path}");
    assert!(path.ends_with("/logs/local-vite.log"), "{path}");
    assert_eq!(checked_log(Ok(path.clone()), true, "vite"), Ok(path));
}

#[test]
fn a_unit_the_manifest_could_not_make_sense_of_refuses_with_its_own_complaint() {
    let view = view("[local.rails]\ncwd = \"/tmp\"\n");
    let rows = shown(&view);
    let complaint = selected(&view, &rows, 0).unwrap_err();
    assert!(complaint.contains("cmd"), "{complaint}");
}

#[test]
fn the_footer_is_one_line_with_nothing_to_say_and_grows_by_what_there_is() {
    assert!(notice_lines(&vec![], 80, 8).is_empty());
    assert_eq!(notice_lines(&vec![Notice::warn("short enough")], 80, 8).len(), 1);
    assert_eq!(said(&notice_lines(&vec![Notice::bad("gone")], 80, 8)), ["! gone"]);
}

#[test]
fn more_notices_than_the_list_can_spare_are_counted_and_the_newest_kept() {
    let all: Vec<Notice> = (0..6).map(|nth| Notice::warn(&format!("complaint {nth}"))).collect();
    let lines = said(&notice_lines(&all, 80, 3));
    assert_eq!(lines.len(), 3);
    assert!(lines[0].contains("…and 4 more"), "{lines:?}");
    assert!(lines[2].ends_with("complaint 5"), "{lines:?}");
}

#[test]
fn the_daemon_is_right_aligned_against_the_heading_rather_than_after_the_keys() {
    let tag = "daemon 0.1.0  pid 4242";
    let (title, filler) = heading("~/projects/tds/harmony", tag, 80);
    let line = format!("{title}{}{tag}", " ".repeat(filler));
    assert_eq!(line.chars().count(), 80);
    assert!(line.starts_with("~/projects/tds/harmony"));
    assert!(line.ends_with("daemon 0.1.0  pid 4242"));

    let long = "~/projects/tds/very/deeply/nested/checkouts/harmony-wt2";
    let (title, filler) = heading(long, tag, 60);
    let line = format!("{title}{}{tag}", " ".repeat(filler));
    assert!(line.starts_with('…'), "{line:?}");
    assert!(line.contains("checkouts/harmony-wt2"), "{line:?}");
    assert_eq!(line.chars().count(), 60);
}

#[test]
fn a_skewed_daemon_says_the_whole_of_why_in_a_notice_and_tags_the_heading() {
    let daemon = daemon_report(&Ok(Peer {
        version: "0.1.0".to_string(),
        protocol: 3,
        pid: 4242,
    }));
    assert_eq!(daemon.tag, DAEMON_SKEWED);
    let lines = said(&notice_lines(&notices(&vec![], &daemon.trouble, None, None), 80, 12));
    assert!(lines.len() > 1, "{lines:?}");
    assert!(lines.iter().all(|line| line.chars().count() <= 80));
    let read_back = lines
        .iter()
        .map(|line| line.trim_start_matches(['!', ' ']))
        .collect::<Vec<_>>()
        .join(" ");
    assert_eq!(
        read_back,
        "daemon 0.1.0 pid 4242 speaks protocol 3, this build speaks 2 — kill 4242 to clear it"
    );
}

#[test]
fn a_daemon_that_speaks_this_protocol_is_tagged_quietly_and_one_that_cannot_be_reached_says_why() {
    let daemon = daemon_report(&Ok(Peer {
        version: "0.1.0".to_string(),
        protocol: PROTOCOL,
        pid: 4242,
    }));
    assert_eq!(daemon.tag, "daemon 0.1.0  pid 4242");
    assert_eq!(daemon.tone, Tone::Quiet);
    assert!(daemon.trouble.is_none());
    let gone = daemon_report(&Err("no daemon socket".to_string()));
    assert_eq!(gone.tag, NO_DAEMON);
    assert_eq!(gone.trouble, Some(Notice::bad("no daemon socket")));
}

use herdr_dev::readable::{Colour, Filter, Line, LONGEST_LINE};

fn all(chunks: &[&str]) -> Vec<String> {
    let mut filter = Filter::new();
    chunks
        .iter()
        .flat_map(|chunk| filter.absorb(chunk.as_bytes()))
        .map(|line| line.text())
        .collect()
}

fn one(text: &str) -> Line {
    let mut filter = Filter::new();
    let mut lines = filter.absorb(text.as_bytes());
    lines.extend(filter.absorb(b"\n"));
    assert_eq!(lines.len(), 1, "{lines:?}");
    lines.into_iter().next().expect("a line")
}

fn texts(lines: Vec<Line>) -> Vec<String> {
    lines.into_iter().map(|line| line.text()).collect()
}

#[test]
fn the_control_characters_that_are_not_paint_never_reach_the_screen() {
    assert_eq!(one("\u{1b}[32mgreen\u{1b}[0m done").text(), "green done");
    assert_eq!(one("\u{1b}[2Kcleared").text(), "cleared");
    assert_eq!(one("\u{1b}]0;a title\u{7}shell").text(), "shell");
    assert_eq!(one("\u{1b}]0;a title\u{1b}\\shell").text(), "shell");
    assert_eq!(one("a\tb").text(), "a    b");
    assert_eq!(one("\u{1b}(Bplain").text(), "plain");
    assert_eq!(one("bell\u{7}rung").text(), "bellrung");
}

#[test]
fn colour_is_kept_as_the_style_of_the_run_it_painted() {
    let line = one("\u{1b}[32mgreen\u{1b}[0m plain");
    assert_eq!(line.text(), "green plain");
    assert_eq!(
        line.segments()
            .iter()
            .map(|segment| (segment.text.as_str(), segment.sgr.fg))
            .collect::<Vec<_>>(),
        [("green", Some(Colour::Ansi(2))), (" plain", None)]
    );
}

#[test]
fn the_bright_half_and_the_bigger_palettes_are_read_as_written() {
    assert_eq!(
        one("\u{1b}[92mbright").segments()[0].sgr.fg,
        Some(Colour::Ansi(10))
    );
    assert_eq!(
        one("\u{1b}[38;5;208mindexed").segments()[0].sgr.fg,
        Some(Colour::Indexed(208))
    );
    assert_eq!(
        one("\u{1b}[38;2;255;199;92mrgb").segments()[0].sgr.fg,
        Some(Colour::Rgb(255, 199, 92))
    );
    let both = one("\u{1b}[1;4mboth");
    assert!(both.segments()[0].sgr.bold);
    assert!(both.segments()[0].sgr.underline);
}

#[test]
fn a_rewritten_column_takes_the_paint_of_the_frame_that_won_it() {
    let line = one("\u{1b}[31mred\r\u{1b}[32mgr");
    assert_eq!(line.text(), "grd");
    assert_eq!(
        line.segments()
            .iter()
            .map(|segment| (segment.text.as_str(), segment.sgr.fg))
            .collect::<Vec<_>>(),
        [("gr", Some(Colour::Ansi(2))), ("d", Some(Colour::Ansi(1)))]
    );
}

#[test]
fn a_clipped_line_keeps_every_character_it_kept_painted_as_it_was() {
    let line = one("\u{1b}[34mfour\u{1b}[0mmore").clip(6);
    assert_eq!(line.text(), "fourmo");
    assert_eq!(line.segments().len(), 2);
    assert_eq!(line.segments()[0].sgr.fg, Some(Colour::Ansi(4)));
    assert_eq!(line.segments()[1].sgr.fg, None);
}

#[test]
fn a_carriage_return_returns_the_line_to_its_start_and_what_follows_overwrites_it() {
    assert_eq!(one("bare\rrewrite").text(), "rewrite");
    assert_eq!(one("[   ] 0%\r[## ] 50%\r[###] 100%").text(), "[###] 100%");
    assert_eq!(all(&["one\r\ntwo\r\n"]), ["one", "two"]);
}

#[test]
fn a_bar_rewritten_frame_by_frame_reads_as_its_final_state_rather_than_every_frame_at_once() {
    let frames: Vec<String> = (0..=10)
        .map(|tenth| format!("\rdownloading {:>3}%", tenth * 10))
        .collect();
    let mut chunks: Vec<&str> = frames.iter().map(String::as_str).collect();
    chunks.push("\n");
    assert_eq!(all(&chunks), ["downloading 100%"]);
}

#[test]
fn readable_a_line_only_arrives_once_its_newline_does() {
    let mut filter = Filter::new();
    assert!(filter.absorb(b"half a ").is_empty());
    assert_eq!(
        texts(filter.absorb(b"line\nand another\n")),
        ["half a line", "and another"]
    );
}

#[test]
fn a_sequence_cut_in_half_by_a_chunk_boundary_is_still_spent_whole() {
    assert_eq!(
        all(&["\u{1b}[3", "2mgreen\u{1b}", "[0m done\n"]),
        ["green done"]
    );
    assert_eq!(all(&["\u{1b}", "[32mgreen\n"]), ["green"]);
    assert_eq!(all(&["\u{1b}]0;a ti", "tle\u{7}shell\n"]), ["shell"]);
    assert_eq!(all(&["\u{1b}]0;a title\u{1b}", "\\shell\n"]), ["shell"]);
    assert_eq!(all(&["\u{1b}", "(Bplain\n"]), ["plain"]);
}

#[test]
fn a_character_cut_in_half_by_a_chunk_boundary_is_held_back_rather_than_mangled() {
    let mut filter = Filter::new();
    let text = "café ✔".as_bytes();
    let (head, tail) = text.split_at(4);
    assert!(filter.absorb(head).is_empty());
    assert_eq!(texts(filter.absorb(tail)), Vec::<String>::new());
    assert_eq!(texts(filter.absorb(b"\n")), ["café ✔"]);
}

#[test]
fn a_byte_that_is_not_utf8_at_all_is_spent_rather_than_held_forever() {
    let mut filter = Filter::new();
    assert_eq!(texts(filter.absorb(b"one \xff two\n")), ["one \u{fffd} two"]);
    assert_eq!(texts(filter.absorb(b"after\n")), ["after"]);
}

#[test]
fn a_source_that_never_writes_a_newline_is_broken_up_rather_than_held_in_memory() {
    let mut filter = Filter::new();
    let lines = filter.absorb("x".repeat(LONGEST_LINE * 2 + 5).as_bytes());
    assert_eq!(lines.len(), 2);
    assert!(lines.iter().all(|line| line.width() == LONGEST_LINE));
    assert_eq!(filter.rest().map(|rest| rest.width()), Some(5));
}

#[test]
fn a_source_that_ended_without_a_newline_still_gives_up_its_last_line() {
    let mut filter = Filter::new();
    assert!(filter.absorb(b"irb(main):001> ").is_empty());
    assert_eq!(filter.rest(), Some(Line::plain("irb(main):001> ")));
    assert_eq!(filter.rest(), None);
}

#[test]
fn a_reset_takes_the_half_line_and_the_half_sequence_of_the_previous_generation_with_it() {
    let mut filter = Filter::new();
    assert!(filter.absorb(b"half a line\x1b[").is_empty());
    filter.reset();
    assert_eq!(texts(filter.absorb(b"32mfresh\n")), ["32mfresh"]);
}

#[test]
fn how_a_stream_is_cut_into_chunks_changes_nothing_it_yields() {
    let whole = "\u{1b}[31mred\u{1b}[0m café ✔\r\nnext\tline\n\u{1b}]0;t\u{7}x\n";
    let at_once = all(&[whole]);
    let bytes = whole.as_bytes();
    for cut in 0..bytes.len() {
        let mut filter = Filter::new();
        let mut lines = texts(filter.absorb(&bytes[..cut]));
        lines.extend(texts(filter.absorb(&bytes[cut..])));
        assert_eq!(lines, at_once, "cut at {cut}");
    }
}

#[test]
fn a_code_not_understood_is_skipped_rather_than_reset() {
    let line = one("\u{1b}[1;31mred\u{1b}[4:3mstill\u{1b}[mplain");
    let paints: Vec<(String, Option<Colour>, bool)> = line
        .segments()
        .iter()
        .map(|segment| (segment.text.clone(), segment.sgr.fg, segment.sgr.bold))
        .collect();
    assert_eq!(
        paints,
        vec![
            ("redstill".to_string(), Some(Colour::Ansi(1)), true),
            ("plain".to_string(), None, false),
        ]
    );
    let skipped = one("\u{1b}[1;9:9;32mgreen");
    assert_eq!(skipped.segments()[0].sgr.fg, Some(Colour::Ansi(2)));
    assert!(skipped.segments()[0].sgr.bold);
}

#[test]
fn a_tab_at_the_edge_finishes_the_line_at_exactly_the_longest_and_starts_the_next() {
    let mut filter = Filter::new();
    let mut text = "x".repeat(LONGEST_LINE - 1);
    text.push('\t');
    let lines = filter.absorb(text.as_bytes());
    assert_eq!(lines.len(), 1);
    assert_eq!(lines[0].width(), LONGEST_LINE);
    let rest = filter.absorb(b"\n");
    assert_eq!(texts(rest), vec!["   ".to_string()]);
}

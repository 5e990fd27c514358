use e_agent::ansi::{parse_frame, parse_line, plain_line, plain_lines};

#[test]
fn strips_control_sequences_and_clips_cjk_without_splitting_cells() {
    assert_eq!(plain_line("\x1b[31m你a\x1b[0m", 3), "你a");
    assert_eq!(plain_line("你a", 2), "你");
    assert_eq!(
        plain_line("a\x1b]8;;https://e.example\x1b\\b\x1b]8;;\x1b\\", 2),
        "ab"
    );
    assert_eq!(plain_line("a\x1b_pi:c\x07b", 2), "ab");
}

#[test]
fn parses_styles_links_and_cursor_marker() {
    let line = parse_line(
        "\x1b[1;38;2;1;2;3mA\x1b]8;;https://e.example\x07B\x1b]8;;\x07\x1b_pi:c\x07C",
        8,
    );
    assert_eq!(line.cursor, Some(2));
    assert_eq!(line.cells.len(), 3);
    assert!(line.cells[0].style.bold);
    assert_eq!(line.cells[0].style.foreground, Some(0x010203));
    assert_eq!(line.cells[1].hyperlink.as_deref(), Some("https://e.example"));
    assert!(line.cells[2].hyperlink.is_none());
}

#[test]
fn resets_style_and_hyperlink_at_explicit_boundaries() {
    let frame = parse_frame(
        &["\x1b[31mred\x1b[39m plain", "\x1b]8;;url\x07link\x1b]8;;\x07x"],
        32,
    );
    assert_eq!(frame.lines.len(), 2);
    assert_ne!(frame.lines[0].cells[0].style.foreground, None);
    assert_eq!(frame.lines[0].cells[4].style.foreground, None);
    assert_eq!(frame.lines[1].cells[0].hyperlink.as_deref(), Some("url"));
    assert_eq!(frame.lines[1].cells[4].hyperlink, None);
}

#[test]
fn isolates_each_line() {
    assert_eq!(plain_lines(&["\x1b[1mone", "two\x1b[0m"], 8), "one\ntwo");
}

#[test]
fn wide_characters_take_two_columns_and_controls_none() {
    assert_eq!(plain_line("a\u{7}b", 2), "ab");
    assert_eq!(plain_line("你好", 3), "你");
    assert_eq!(plain_line("你好", 4), "你好");
    assert_eq!(plain_line("你a", 1), "a");
    assert_eq!(plain_line("", 4), "");
}

#[test]
fn sgr_codes_set_and_clear_attributes() {
    let line = parse_line("\x1b[1;3;4;7;9ma\x1b[22;23;24;27;29mb\x1b[mc", 8);
    let a = line.cells[0].style;
    assert!(a.bold && a.italic && a.underline && a.inverse && a.strikethrough);
    let b = line.cells[1].style;
    assert!(!b.bold && !b.italic && !b.underline && !b.inverse && !b.strikethrough);
    assert_eq!(line.cells[2].style, e_agent::ansi::AnsiStyle::default());
}

#[test]
fn basic_bright_and_palette_colours() {
    let line = parse_line("\x1b[31;42ma\x1b[91;103mb\x1b[38;5;200mc\x1b[39;49md", 8);
    assert_eq!(line.cells[0].style.foreground, Some(0x01000001));
    assert_eq!(line.cells[0].style.background, Some(0x01000002));
    assert_eq!(line.cells[1].style.foreground, Some(0x02000001));
    assert_eq!(line.cells[1].style.background, Some(0x02000003));
    assert_eq!(line.cells[2].style.foreground, Some(200));
    assert_eq!(line.cells[3].style.foreground, None);
    assert_eq!(line.cells[3].style.background, None);
}

#[test]
fn unparsable_and_oversized_sgr_numbers_reset() {
    let line = parse_line("\x1b[1mA\x1b[;mB\x1b[1mC\x1b[70000mD\x1b[1mE\x1b[+1mF", 8);
    assert!(line.cells[0].style.bold);
    assert!(!line.cells[1].style.bold);
    assert!(line.cells[2].style.bold);
    assert!(!line.cells[3].style.bold);
    assert!(line.cells[5].style.bold);
}

#[test]
fn other_csi_sequences_and_string_controls_are_dropped() {
    assert_eq!(plain_line("a\x1b[2Kb\x1bPdata\x1b\\c\x1b^pm\x07d\x1bXsos\x07e", 8), "abcde");
    assert_eq!(plain_line("a\x1b[31", 8), "a");
    assert_eq!(plain_line("a\x1b", 8), "a");
    assert_eq!(plain_line("a\x1bzb", 8), "ab");
}

#[test]
fn cursor_marker_records_the_column_reached() {
    let line = parse_line("你\x1b_pi:c\x07", 4);
    assert_eq!(line.cursor, Some(2));
    let other = parse_line("a\x1b_other\x07", 4);
    assert_eq!(other.cursor, None);
}

use writer_core::buffer::{lines_of, TextBuffer};
use writer_core::calendar::{date_to_epoch_ms, epoch_ms_to_date, epoch_ms_to_weekday, next_day, prev_day};
use writer_core::markdown::{is_horizontal_rule, is_ordered_list, LineKind};
use writer_core::serialize::{
    deserialize_config, deserialize_document, deserialize_index, serialize_config,
    serialize_document, serialize_index, WriterConfig,
};

fn chars(s: &str) -> Vec<char> {
    s.chars().collect()
}

#[test]
fn classify_empty_and_heading_one() {
    assert_eq!(LineKind::classify(""), LineKind::Empty);
    assert_eq!(LineKind::classify("# Title"), LineKind::Heading1);
    assert_eq!(LineKind::strip_prefix("# Title", LineKind::Heading1), "Title");
}

#[test]
fn classify_rule_needs_one_character() {
    assert_eq!(LineKind::classify("---"), LineKind::HorizontalRule);
    assert_eq!(LineKind::classify("--x-"), LineKind::Normal);
    assert_eq!(LineKind::classify("-*-"), LineKind::Normal);
    assert_eq!(LineKind::classify("--"), LineKind::Normal);
    assert!(is_horizontal_rule(&chars("_ _ _ _")));
    assert!(!is_horizontal_rule(&chars("===")));
}

#[test]
fn classify_priority_order() {
    // a rule wins over a list marker, a fence over a heading
    assert_eq!(LineKind::classify("* * *"), LineKind::HorizontalRule);
    assert_eq!(LineKind::classify("```# x"), LineKind::CodeBlock);
    // indentation counts on the raw line, headings on the trimmed one
    assert_eq!(LineKind::classify("  # Title"), LineKind::Heading1);
    assert_eq!(LineKind::classify("    # Title"), LineKind::CodeBlock);
    assert_eq!(LineKind::classify("#### deep"), LineKind::Normal);
    assert_eq!(LineKind::classify(">quote"), LineKind::Normal);
    assert_eq!(LineKind::classify("1.first"), LineKind::Normal);
    assert_eq!(LineKind::classify("a1. x"), LineKind::Normal);
    assert_eq!(LineKind::classify("\u{3000}"), LineKind::Empty);
}

#[test]
fn ordered_list_detection() {
    assert!(is_ordered_list(&chars("3. x")));
    assert!(is_ordered_list(&chars("007. x")));
    assert!(!is_ordered_list(&chars(". x")));
    assert!(!is_ordered_list(&chars("3.x")));
}

#[test]
fn strip_prefix_edge_cases() {
    assert_eq!(LineKind::strip_prefix("  ## Sub", LineKind::Heading2), "Sub");
    assert_eq!(LineKind::strip_prefix("Title", LineKind::Heading1), "Title");
    assert_eq!(LineKind::strip_prefix("  plain", LineKind::Heading1), "plain");
    assert_eq!(LineKind::strip_prefix("---", LineKind::HorizontalRule), "");
    assert_eq!(LineKind::strip_prefix("  ", LineKind::Empty), "");
    assert_eq!(LineKind::strip_prefix("  hi", LineKind::Normal), "  hi");
    assert_eq!(LineKind::strip_prefix("12. twelfth", LineKind::OrderedList), "twelfth");
    assert_eq!(LineKind::strip_prefix("x. y", LineKind::OrderedList), "x. y");
    assert_eq!(LineKind::strip_prefix("      code", LineKind::CodeBlock), "  code");
    assert_eq!(LineKind::strip_prefix("«» é", LineKind::Normal), "«» é");
    assert_eq!(LineKind::strip_prefix("- é", LineKind::UnorderedList), "é");
}

#[test]
fn next_and_prev_day_across_month() {
    assert_eq!(next_day("2026-01-31"), "2026-02-01");
    assert_eq!(prev_day("2026-02-01"), "2026-01-31");
}

#[test]
fn day_navigation_edges() {
    assert_eq!(next_day("2024-02-28"), "2024-02-29");
    assert_eq!(next_day("2023-02-28"), "2023-03-01");
    assert_eq!(next_day("2025-12-31"), "2026-01-01");
    assert_eq!(prev_day("2000-03-01"), "2000-02-29");
    assert_eq!(prev_day("1970-01-01"), "1970-01-01");
    assert_eq!(prev_day("not a date"), "not a date");
    assert_eq!(next_day("2026-13-01"), "2026-13-01");
}

#[test]
fn date_parsing_rules() {
    assert_eq!(date_to_epoch_ms("1970-01-02"), Some(86_400_000));
    assert_eq!(date_to_epoch_ms("2026-01-23"), Some(1_769_126_400_000));
    assert_eq!(date_to_epoch_ms("+2026-+01-+23"), Some(1_769_126_400_000));
    assert_eq!(date_to_epoch_ms("2026-1-3"), date_to_epoch_ms("2026-01-03"));
    assert_eq!(date_to_epoch_ms("2026-00-10"), None);
    assert_eq!(date_to_epoch_ms("2026-01-32"), None);
    assert_eq!(date_to_epoch_ms("2026-01"), None);
    assert_eq!(date_to_epoch_ms("2026-01-01-01"), None);
    assert_eq!(date_to_epoch_ms("2026-0x-01"), None);
    assert_eq!(date_to_epoch_ms("2026--01"), None);
    assert_eq!(date_to_epoch_ms(""), None);
    // a day past the month's end is accepted and counted on
    assert_eq!(date_to_epoch_ms("2026-02-30"), date_to_epoch_ms("2026-03-02"));
    // years before 1970 count no years
    assert_eq!(date_to_epoch_ms("1969-01-01"), Some(0));
    // a year past what i32 holds does not parse
    assert_eq!(date_to_epoch_ms("2147483648-01-01"), None);
}

#[test]
fn date_formatting() {
    assert_eq!(epoch_ms_to_date(951_782_400_000), "2000-02-29");
    assert_eq!(epoch_ms_to_date(86_399_999), "1970-01-01");
    assert_eq!(epoch_ms_to_date(253_402_214_400_000), "9999-12-31");
    assert_eq!(epoch_ms_to_date(253_402_300_800_000), "10000-01-01");
    assert_eq!(epoch_ms_to_weekday(1_769_126_400_000), "Fri");
    assert_eq!(epoch_ms_to_weekday(86_400_000 * 3), "Sun");
}

#[test]
fn date_round_trip_samples() {
    for date in ["1970-01-01", "1999-12-31", "2000-02-29", "2026-10-18", "9999-12-31"] {
        let ms = date_to_epoch_ms(date).unwrap();
        assert_eq!(epoch_ms_to_date(ms), date);
    }
}

#[test]
fn delete_back_joins_lines() {
    let mut buf = TextBuffer::from_text("hello\nworld");
    buf.cursor.line = 1;
    buf.cursor.col = 0;
    buf.delete_back();
    assert_eq!(buf.lines, vec!["helloworld".to_string()]);
    assert_eq!((buf.cursor.line, buf.cursor.col), (0, 5));
}

#[test]
fn insert_two_chars_into_empty_buffer() {
    let mut buf = TextBuffer::new();
    buf.insert_char('a');
    buf.insert_char('b');
    assert_eq!(buf.lines, vec!["ab".to_string()]);
    assert_eq!(buf.cursor.col, 2);
    assert!(buf.modified);
}

#[test]
fn scroll_follows_cursor_down() {
    let mut buf = TextBuffer::new();
    buf.viewport_lines = 3;
    for _ in 0..10 {
        buf.append_newline();
    }
    buf.viewport_top = 0;
    buf.cursor.line = 5;
    buf.cursor.col = 0;
    buf.ensure_cursor_visible();
    assert_eq!(buf.viewport_top, 3);
    buf.ensure_cursor_visible();
    assert_eq!(buf.viewport_top, 3);
    buf.cursor.line = 1;
    buf.ensure_cursor_visible();
    assert_eq!(buf.viewport_top, 1);
}

#[test]
fn buffer_edges_are_no_ops() {
    let mut buf = TextBuffer::from_text("ab");
    buf.delete_back();
    assert_eq!(buf.lines, vec!["ab".to_string()]);
    assert!(!buf.modified);
    buf.move_end();
    buf.delete_forward();
    assert_eq!(buf.lines, vec!["ab".to_string()]);
    buf.move_right();
    assert_eq!(buf.cursor.col, 2);
    buf.move_down();
    assert_eq!(buf.cursor.line, 0);
    buf.move_home();
    buf.move_left();
    buf.move_up();
    assert_eq!((buf.cursor.line, buf.cursor.col), (0, 0));
}

#[test]
fn deleting_everything_keeps_one_line() {
    let mut buf = TextBuffer::new();
    buf.insert_char('x');
    buf.delete_back();
    buf.delete_back();
    assert_eq!(buf.lines, vec![String::new()]);
    assert_eq!(buf.line_count(), 1);
}

#[test]
fn columns_count_characters() {
    let mut buf = TextBuffer::from_text("héllo");
    buf.move_end();
    assert_eq!(buf.cursor.col, 5);
    buf.move_left();
    buf.insert_char('ö');
    assert_eq!(buf.lines[0], "héllöo");
    buf.cursor.col = 2;
    buf.delete_back();
    assert_eq!(buf.lines[0], "hllöo");
    assert_eq!(buf.char_count(), 5);
}

#[test]
fn move_down_clamps_column() {
    let mut buf = TextBuffer::from_text("hello\nhi");
    buf.move_end();
    buf.move_down();
    assert_eq!((buf.cursor.line, buf.cursor.col), (1, 2));
}

#[test]
fn append_ignores_cursor() {
    let mut buf = TextBuffer::from_text("one\ntwo");
    buf.append_char('!');
    assert_eq!(buf.lines[1], "two!");
    assert_eq!((buf.cursor.line, buf.cursor.col), (1, 4));
}

#[test]
fn text_round_trip_and_line_splitting() {
    for text in ["", "a", "a\nb", "\n\nx", "x\r", "a\r\nb", "\r\n\r"] {
        assert_eq!(TextBuffer::from_text(text).to_string(), text);
    }
    assert_eq!(TextBuffer::from_text("a\r\nb\n").lines, vec!["a\r".to_string(), "b".to_string()]);
    assert_eq!(TextBuffer::from_text("a\n\n").lines, vec!["a".to_string(), String::new()]);
    assert_eq!(lines_of("a\r\nb"), vec!["a".to_string(), "b".to_string()]);
    assert_eq!(TextBuffer::from_text("\n").lines, vec![String::new()]);
    assert_eq!(lines_of(""), Vec::<String>::new());
    assert_eq!(lines_of("x\n\ny"), vec!["x".to_string(), String::new(), "y".to_string()]);
}

#[test]
fn counts() {
    let buf = TextBuffer::from_text("  two  words \n\nthree\tmore words");
    assert_eq!(buf.word_count(), 5);
    assert_eq!(buf.char_count(), 31);
    assert_eq!(TextBuffer::new().char_count(), 0);
}

#[test]
fn document_layout_and_round_trip() {
    let data = serialize_document("Tí", "x");
    assert_eq!(data, vec![3, 0, b'T', 0xc3, 0xad, b'x']);
    assert_eq!(
        deserialize_document(&data),
        Some(("Tí".to_string(), "x".to_string()))
    );
    assert_eq!(deserialize_document(&[0, 0]), Some((String::new(), String::new())));
    assert_eq!(deserialize_document(&[]), None);
}

#[test]
fn document_decoding_replaces_bad_bytes() {
    assert_eq!(
        deserialize_document(&[1, 0, 0xff, b'o', b'k']),
        Some(("\u{fffd}".to_string(), "ok".to_string()))
    );
}

#[test]
fn config_layout() {
    assert_eq!(serialize_config(&WriterConfig::default()), vec![0, 1, 0]);
    assert_eq!(
        deserialize_config(&[2, 7, 0, 9]),
        Some(WriterConfig { default_mode: 2, autosave: true, show_line_numbers: false })
    );
}

#[test]
fn index_layout_and_truncation() {
    let names = vec!["ab".to_string(), "c".to_string()];
    let data = serialize_index(&names);
    assert_eq!(data, vec![2, 0, 0, 0, 2, 0, b'a', b'b', 1, 0, b'c']);
    assert_eq!(deserialize_index(&data[..8]), vec!["ab".to_string()]);
    assert_eq!(deserialize_index(&data[..3]), Vec::<String>::new());
    assert_eq!(deserialize_index(&[9, 0, 0, 0]), Vec::<String>::new());
    assert_eq!(deserialize_index(&[1, 0, 0, 0, 1, 0, 0xc3]), vec!["\u{fffd}".to_string()]);
    let one = vec!["only".to_string()];
    assert_eq!(deserialize_index(&serialize_index(&one)), one);
}

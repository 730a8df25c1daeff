use writer_core::editor::EditorState;
use writer_core::journal::{line_matches, JournalState};
use writer_core::store::{
    add_date, add_doc_name, decode_date_index, doc_key, encode_date_index, next_doc_name,
    remove_doc_name,
};
use writer_core::typewriter::TypewriterState;
use writer_core::ui::{format_number, truncate_str};

fn strings(v: &[&str]) -> Vec<String> {
    v.iter().map(|s| s.to_string()).collect()
}

#[test]
fn states_start_empty() {
    let e = EditorState::with_content("notes", "a\nb");
    assert_eq!(e.doc_name, "notes");
    assert_eq!(e.buffer.lines, strings(&["a", "b"]));
    assert_eq!(EditorState::with_name("x").buffer.lines, vec![String::new()]);
    assert_eq!(EditorState::new().doc_name, "");
    assert_eq!(TypewriterState::new().buffer.lines.len(), 1);
    let j = JournalState::new();
    assert!(j.current_date.is_empty() && j.search_results.is_empty());
}

#[test]
fn journal_dates() {
    let mut j = JournalState::new();
    j.jump_to_today(1_769_126_400_000 + 5_000);
    assert_eq!(j.current_date, "2026-01-23");
    j.next_day();
    assert_eq!(j.current_date, "2026-01-24");
    j.prev_day();
    j.prev_day();
    assert_eq!(j.current_date, "2026-01-22");
}

#[test]
fn journal_entry_load_and_save() {
    let mut j = JournalState::new();
    assert_eq!(j.save_entry(), None);
    j.load_entry(Some("dear diary".to_string()));
    assert_eq!(j.save_entry(), Some("dear diary".to_string()));
    j.load_entry(None);
    assert_eq!(j.buffer.lines, vec![String::new()]);
    j.buffer.insert_char(' ');
    assert_eq!(j.save_entry(), Some(" ".to_string()));
}

#[test]
fn journal_search_matches_case_insensitively() {
    let mut j = JournalState::new();
    j.search_query = "CAT".to_string();
    let entries = vec![
        ("2026-01-01".to_string(), "dog\nA Cat here\ncat again".to_string()),
        ("2026-01-02".to_string(), "nothing".to_string()),
        ("2026-01-03".to_string(), "concatenate".to_string()),
    ];
    j.search_cursor = 4;
    j.search_entries(&entries);
    assert_eq!(j.search_cursor, 0);
    assert_eq!(
        j.search_results,
        vec![
            ("2026-01-01".to_string(), "A Cat here".to_string()),
            ("2026-01-03".to_string(), "concatenate".to_string()),
        ]
    );
    j.search_cursor_down();
    assert_eq!(j.search_cursor, 1);
    j.search_cursor_down();
    assert_eq!(j.search_cursor, 1);
    j.search_cursor_up();
    j.search_cursor_up();
    assert_eq!(j.search_cursor, 0);
}

#[test]
fn journal_search_keeps_ten() {
    let mut j = JournalState::new();
    j.search_query = "x".to_string();
    let entries: Vec<(String, String)> =
        (0..15).map(|i| (format!("d{}", i), "x".to_string())).collect();
    j.search_entries(&entries);
    assert_eq!(j.search_results.len(), 10);
    assert_eq!(j.search_results[9].0, "d9");
    j.search_query.clear();
    j.search_entries(&entries);
    assert!(j.search_results.is_empty());
}

#[test]
fn journal_jump_to_result() {
    let mut j = JournalState::new();
    assert_eq!(j.jump_to_search_result(), None);
    j.current_date = "2026-01-05".to_string();
    j.search_query = "b".to_string();
    j.search_entries(&[("2026-01-01".to_string(), "b".to_string())]);
    j.buffer.insert_char('z');
    assert_eq!(j.jump_to_search_result(), Some(Some("z".to_string())));
    assert_eq!(j.current_date, "2026-01-01");
    assert!(j.search_results.is_empty() && j.search_query.is_empty());
}

#[test]
fn line_matching() {
    assert!(line_matches("a cat", "cat"));
    assert!(line_matches("abc", ""));
    assert!(!line_matches("ca", "cat"));
    assert!(!line_matches("a Cat", "cat"));
}

#[test]
fn doc_index_updates() {
    assert_eq!(doc_key("notes"), "doc_notes");
    let names = strings(&["a", "b"]);
    assert_eq!(add_doc_name(&names, "b"), None);
    assert_eq!(add_doc_name(&names, "c"), Some(strings(&["a", "b", "c"])));
    assert_eq!(remove_doc_name(&strings(&["a", "b", "a"]), "a"), strings(&["b"]));
}

#[test]
fn new_doc_names() {
    assert_eq!(next_doc_name(&[], "Untitled"), "Untitled");
    assert_eq!(next_doc_name(&strings(&["Untitled", "Untitled 2"]), "Untitled"), "Untitled 3");
    let all: Vec<String> = (1..1000)
        .map(|n| if n == 1 { "F".to_string() } else { format!("F {}", n) })
        .collect();
    assert_eq!(next_doc_name(&all, "F"), "F 1000");
}

#[test]
fn date_index_text() {
    let dates = strings(&["2026-01-01", "2026-01-03"]);
    assert_eq!(encode_date_index(&dates), "2026-01-01\n2026-01-03");
    assert_eq!(decode_date_index("2026-01-01\n\n2026-01-03\n"), dates);
    assert_eq!(decode_date_index(""), Vec::<String>::new());
    assert_eq!(add_date(&dates, "2026-01-03"), None);
    assert_eq!(
        add_date(&dates, "2026-01-02"),
        Some(strings(&["2026-01-01", "2026-01-02", "2026-01-03"]))
    );
    assert_eq!(add_date(&strings(&["b", "a"]), "ab"), Some(strings(&["a", "ab", "b"])));
}

#[test]
fn truncation_and_number_formatting() {
    assert_eq!(truncate_str("abcdef", 3), "abc");
    assert_eq!(truncate_str("abcdef", 4), "a...");
    assert_eq!(truncate_str("", 0), "");
    assert_eq!(format_number(0), "0");
    assert_eq!(format_number(999), "999");
    assert_eq!(format_number(12345), "12,345");
    assert_eq!(format_number(100000), "100,000");
}

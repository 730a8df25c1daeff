use writer_core::calendar::{
    date_to_epoch_ms, epoch_ms_to_date, epoch_ms_to_weekday, is_leap_year, next_day, prev_day,
};
use writer_core::serialize::{
    deserialize_config, deserialize_document, deserialize_index, serialize_config,
    serialize_document, serialize_index, WriterConfig,
};

#[test]
fn test_serialize_deserialize_document() {
    let data = serialize_document("My Doc", "Hello\nWorld");
    let (title, content) = deserialize_document(&data).unwrap();
    assert_eq!(title, "My Doc");
    assert_eq!(content, "Hello\nWorld");
}

#[test]
fn test_serialize_deserialize_config() {
    let config = WriterConfig {
        default_mode: 1,
        autosave: true,
        show_line_numbers: false,
    };
    let data = serialize_config(&config);
    let restored = deserialize_config(&data).unwrap();
    assert_eq!(restored.default_mode, 1);
    assert!(restored.autosave);
    assert!(!restored.show_line_numbers);
}

#[test]
fn test_serialize_deserialize_index() {
    let names = vec!["doc1".to_string(), "my notes".to_string()];
    let data = serialize_index(&names);
    let restored = deserialize_index(&data);
    assert_eq!(restored, names);
}

#[test]
fn test_empty_index() {
    let names: Vec<String> = vec![];
    let data = serialize_index(&names);
    let restored = deserialize_index(&data);
    assert!(restored.is_empty());
}

#[test]
fn test_epoch_ms_to_date() {
    assert_eq!(epoch_ms_to_date(0), "1970-01-01");
    assert_eq!(epoch_ms_to_date(86400 * 1000), "1970-01-02");
}

#[test]
fn test_date_to_epoch_and_back() {
    let date = "2026-01-23";
    let ms = date_to_epoch_ms(date).unwrap();
    let back = epoch_ms_to_date(ms);
    assert_eq!(back, date);
}

#[test]
fn test_prev_next_day() {
    assert_eq!(next_day("2026-01-23"), "2026-01-24");
    assert_eq!(prev_day("2026-01-23"), "2026-01-22");
    assert_eq!(next_day("2026-01-31"), "2026-02-01");
    assert_eq!(prev_day("2026-02-01"), "2026-01-31");
}

#[test]
fn test_weekday() {
    // 1970-01-01 was Thursday
    assert_eq!(epoch_ms_to_weekday(0), "Thu");
}

#[test]
fn test_leap_year() {
    assert!(is_leap_year(2000));
    assert!(is_leap_year(2024));
    assert!(!is_leap_year(1900));
    assert!(!is_leap_year(2023));
}

#[test]
fn test_deserialize_document_too_short() {
    assert_eq!(deserialize_document(&[0]), None);
    assert_eq!(deserialize_document(&[5, 0]), None); // title_len=5 but only 2 bytes
}

#[test]
fn test_deserialize_config_too_short() {
    assert_eq!(deserialize_config(&[0, 1]), None);
}

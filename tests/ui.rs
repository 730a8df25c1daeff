use writer_core::ui::{format_number, truncate_str};

#[test]
fn test_truncate_str() {
    assert_eq!(truncate_str("hello", 10), "hello");
    assert_eq!(truncate_str("hello world", 8), "hello...");
    assert_eq!(truncate_str("hi", 2), "hi");
}

#[test]
fn test_format_number() {
    assert_eq!(format_number(42), "42");
    assert_eq!(format_number(1000), "1,000");
    assert_eq!(format_number(1847), "1,847");
    assert_eq!(format_number(1000000), "1,000,000");
}

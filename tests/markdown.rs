use writer_core::markdown::LineKind;

#[test]
fn test_classify_empty() {
    assert_eq!(LineKind::classify(""), LineKind::Empty);
    assert_eq!(LineKind::classify("   "), LineKind::Empty);
}

#[test]
fn test_classify_headings() {
    assert_eq!(LineKind::classify("# Title"), LineKind::Heading1);
    assert_eq!(LineKind::classify("## Subtitle"), LineKind::Heading2);
    assert_eq!(LineKind::classify("### Section"), LineKind::Heading3);
}

#[test]
fn test_classify_code_block() {
    assert_eq!(LineKind::classify("```rust"), LineKind::CodeBlock);
    assert_eq!(LineKind::classify("```"), LineKind::CodeBlock);
    assert_eq!(LineKind::classify("    code here"), LineKind::CodeBlock);
    assert_eq!(LineKind::classify("\tcode here"), LineKind::CodeBlock);
}

#[test]
fn test_classify_block_quote() {
    assert_eq!(LineKind::classify("> quote"), LineKind::BlockQuote);
    assert_eq!(LineKind::classify(">"), LineKind::BlockQuote);
}

#[test]
fn test_classify_lists() {
    assert_eq!(LineKind::classify("- item"), LineKind::UnorderedList);
    assert_eq!(LineKind::classify("* item"), LineKind::UnorderedList);
    assert_eq!(LineKind::classify("1. first"), LineKind::OrderedList);
    assert_eq!(LineKind::classify("12. twelfth"), LineKind::OrderedList);
}

#[test]
fn test_classify_horizontal_rule() {
    assert_eq!(LineKind::classify("---"), LineKind::HorizontalRule);
    assert_eq!(LineKind::classify("***"), LineKind::HorizontalRule);
    assert_eq!(LineKind::classify("___"), LineKind::HorizontalRule);
    assert_eq!(LineKind::classify("- - -"), LineKind::HorizontalRule);
}

#[test]
fn test_classify_normal() {
    assert_eq!(LineKind::classify("hello world"), LineKind::Normal);
    assert_eq!(LineKind::classify("just text"), LineKind::Normal);
}

#[test]
fn test_strip_prefix_heading() {
    assert_eq!(LineKind::strip_prefix("# Title", LineKind::Heading1), "Title");
    assert_eq!(LineKind::strip_prefix("## Sub", LineKind::Heading2), "Sub");
    assert_eq!(LineKind::strip_prefix("### Sec", LineKind::Heading3), "Sec");
}

#[test]
fn test_strip_prefix_quote() {
    assert_eq!(LineKind::strip_prefix("> text", LineKind::BlockQuote), "text");
    assert_eq!(LineKind::strip_prefix(">", LineKind::BlockQuote), "");
}

#[test]
fn test_strip_prefix_list() {
    assert_eq!(LineKind::strip_prefix("- item", LineKind::UnorderedList), "item");
    assert_eq!(LineKind::strip_prefix("* item", LineKind::UnorderedList), "item");
    assert_eq!(LineKind::strip_prefix("1. first", LineKind::OrderedList), "first");
}

#[test]
fn test_strip_prefix_code() {
    assert_eq!(LineKind::strip_prefix("    code", LineKind::CodeBlock), "code");
    assert_eq!(LineKind::strip_prefix("\tcode", LineKind::CodeBlock), "code");
    assert_eq!(LineKind::strip_prefix("```rust", LineKind::CodeBlock), "");
}

#[test]
fn test_strip_prefix_normal() {
    assert_eq!(LineKind::strip_prefix("hello", LineKind::Normal), "hello");
}

#[test]
fn test_not_heading_without_space() {
    assert_eq!(LineKind::classify("#nospace"), LineKind::Normal);
    assert_eq!(LineKind::classify("##nospace"), LineKind::Normal);
}

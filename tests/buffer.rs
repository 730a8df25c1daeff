use writer_core::buffer::TextBuffer;

#[test]
fn test_new_buffer() {
    let buf = TextBuffer::new();
    assert_eq!(buf.lines.len(), 1);
    assert_eq!(buf.cursor.line, 0);
    assert_eq!(buf.cursor.col, 0);
    assert!(!buf.modified);
}

#[test]
fn test_from_text() {
    let buf = TextBuffer::from_text("hello\nworld");
    assert_eq!(buf.lines.len(), 2);
    assert_eq!(buf.lines[0], "hello");
    assert_eq!(buf.lines[1], "world");
}

#[test]
fn test_insert_char() {
    let mut buf = TextBuffer::new();
    buf.insert_char('h');
    buf.insert_char('i');
    assert_eq!(buf.lines[0], "hi");
    assert_eq!(buf.cursor.col, 2);
    assert!(buf.modified);
}

#[test]
fn test_delete_back() {
    let mut buf = TextBuffer::from_text("hello");
    buf.cursor.col = 5;
    buf.delete_back();
    assert_eq!(buf.lines[0], "hell");
    assert_eq!(buf.cursor.col, 4);
}

#[test]
fn test_delete_back_merge_lines() {
    let mut buf = TextBuffer::from_text("hello\nworld");
    buf.cursor.line = 1;
    buf.cursor.col = 0;
    buf.delete_back();
    assert_eq!(buf.lines.len(), 1);
    assert_eq!(buf.lines[0], "helloworld");
    assert_eq!(buf.cursor.line, 0);
    assert_eq!(buf.cursor.col, 5);
}

#[test]
fn test_newline() {
    let mut buf = TextBuffer::from_text("hello");
    buf.cursor.col = 3;
    buf.newline();
    assert_eq!(buf.lines.len(), 2);
    assert_eq!(buf.lines[0], "hel");
    assert_eq!(buf.lines[1], "lo");
    assert_eq!(buf.cursor.line, 1);
    assert_eq!(buf.cursor.col, 0);
}

#[test]
fn test_cursor_movement() {
    let mut buf = TextBuffer::from_text("hello\nworld");
    buf.cursor.col = 2;
    buf.move_down();
    assert_eq!(buf.cursor.line, 1);
    assert_eq!(buf.cursor.col, 2);
    buf.move_up();
    assert_eq!(buf.cursor.line, 0);
    buf.move_end();
    assert_eq!(buf.cursor.col, 5);
    buf.move_home();
    assert_eq!(buf.cursor.col, 0);
}

#[test]
fn test_word_count() {
    let buf = TextBuffer::from_text("hello world\nfoo bar baz");
    assert_eq!(buf.word_count(), 5);
}

#[test]
fn test_char_count() {
    let buf = TextBuffer::from_text("hi\nbye");
    // "hi" (2) + "\n" (1) + "bye" (3) = 6
    assert_eq!(buf.char_count(), 6);
}

#[test]
fn test_viewport_scrolling() {
    let mut buf = TextBuffer::new();
    buf.viewport_lines = 3;
    for i in 0..10 {
        buf.lines.push(format!("line {}", i));
    }
    buf.cursor.line = 5;
    buf.ensure_cursor_visible();
    assert_eq!(buf.viewport_top, 3);
}

#[test]
fn test_delete_forward() {
    let mut buf = TextBuffer::from_text("hello");
    buf.cursor.col = 2;
    buf.delete_forward();
    assert_eq!(buf.lines[0], "helo");
}

#[test]
fn test_delete_forward_merge() {
    let mut buf = TextBuffer::from_text("hello\nworld");
    buf.cursor.col = 5;
    buf.delete_forward();
    assert_eq!(buf.lines.len(), 1);
    assert_eq!(buf.lines[0], "helloworld");
}

#[test]
fn test_append_char() {
    let mut buf = TextBuffer::new();
    buf.append_char('a');
    buf.append_char('b');
    assert_eq!(buf.lines[0], "ab");
    assert_eq!(buf.cursor.col, 2);
}

#[test]
fn test_append_newline() {
    let mut buf = TextBuffer::new();
    buf.append_char('a');
    buf.append_newline();
    buf.append_char('b');
    assert_eq!(buf.lines.len(), 2);
    assert_eq!(buf.lines[0], "a");
    assert_eq!(buf.lines[1], "b");
}

#[test]
fn test_move_right_wraps() {
    let mut buf = TextBuffer::from_text("ab\ncd");
    buf.cursor.col = 2; // end of first line
    buf.move_right();
    assert_eq!(buf.cursor.line, 1);
    assert_eq!(buf.cursor.col, 0);
}

#[test]
fn test_move_left_wraps() {
    let mut buf = TextBuffer::from_text("ab\ncd");
    buf.cursor.line = 1;
    buf.cursor.col = 0;
    buf.move_left();
    assert_eq!(buf.cursor.line, 0);
    assert_eq!(buf.cursor.col, 2);
}

use large_text_viewer::FileHandler;

fn handler_from(content: &str) -> FileHandler {
    FileHandler::from_bytes(content.as_bytes().to_vec()).unwrap()
}

#[test]
fn test_open_file() {
    let handler = handler_from("line1\nline2\nline3");
    assert_eq!(handler.total_lines(), 3);
}

#[test]
fn test_get_line() {
    let handler = handler_from("first\nsecond\nthird");

    assert_eq!(handler.get_line(0), Some("first".to_string()));
    assert_eq!(handler.get_line(1), Some("second".to_string()));
    assert_eq!(handler.get_line(2), Some("third".to_string()));
    assert_eq!(handler.get_line(3), None);
}

#[test]
fn test_viewport_lines() {
    let handler = handler_from("1\n2\n3\n4\n5");

    let viewport = handler.get_viewport_lines(1, 2);
    assert_eq!(viewport, vec!["2", "3"]);
}

#[test]
fn test_modified_lines() {
    let mut handler = handler_from("original\nline2");

    handler.set_line(0, "modified".to_string()).unwrap();
    assert_eq!(handler.get_line(0), Some("modified".to_string()));
    assert_eq!(handler.get_line(1), Some("line2".to_string()));

    handler.clear_modifications().unwrap();
    assert_eq!(handler.get_line(0), Some("original".to_string()));
}

#[test]
fn test_empty_file() {
    // a zero-length file cannot be mapped: the open fails with EmptyFile
    let r = FileHandler::from_bytes(Vec::new());
    assert!(matches!(r, Err(large_text_viewer::CoreError::EmptyFile)));
}

#[test]
fn test_no_trailing_newline() {
    let handler = handler_from("line1\nline2");
    assert_eq!(handler.total_lines(), 2);
    assert_eq!(handler.get_line(1), Some("line2".to_string()));
}

#[test]
fn test_trailing_newline_lines() {
    let handler = handler_from("a\nb\n");
    assert_eq!(handler.total_lines(), 2);
    assert_eq!(handler.get_line(0), Some("a".to_string()));
    assert_eq!(handler.get_line(1), Some("b".to_string()));
    assert_eq!(handler.get_line(2), None);
}

#[test]
fn test_only_newlines() {
    let handler = handler_from("\n\n\n");
    assert_eq!(handler.total_lines(), 3);
    assert_eq!(handler.get_line(0), Some("".to_string()));
    assert_eq!(handler.get_line(2), Some("".to_string()));
}

#[test]
fn test_line_bytes_keep_terminator() {
    let handler = handler_from("ab\ncd");
    assert_eq!(handler.get_line_bytes(0).unwrap(), b"ab\n");
    assert_eq!(handler.get_line_bytes(1).unwrap(), b"cd");
    assert!(handler.get_line_bytes(2).is_none());
}

#[test]
fn test_crlf_stripped() {
    let handler = handler_from("ab\r\ncd\r\n");
    assert_eq!(handler.total_lines(), 2);
    assert_eq!(handler.get_line(0), Some("ab".to_string()));
    assert_eq!(handler.get_line(1), Some("cd".to_string()));
}

#[test]
fn test_invalid_utf8_line_is_replaced() {
    let handler = FileHandler::from_bytes(vec![0xFF, b'a', b'\n', b'o', b'k']).unwrap();
    let line = handler.get_line(0).unwrap();
    assert_eq!(line, "\u{FFFD}a");
    assert_eq!(handler.get_line(1), Some("ok".to_string()));
}

#[test]
fn test_iter_lines() {
    let handler = handler_from("x\ny");
    let lines = handler.iter_lines();
    assert_eq!(lines.len(), 2);
    assert_eq!(lines[0], (0, "x".to_string()));
    assert_eq!(lines[1], (1, "y".to_string()));
}

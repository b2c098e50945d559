use large_text_viewer::{Editor, FileHandler};

fn handler_from(content: &str) -> FileHandler {
    FileHandler::from_bytes(content.as_bytes().to_vec()).unwrap()
}

/// Render replaced lines the way a save writes them: each line followed by a
/// newline.
fn rendered(lines: &[String]) -> Vec<u8> {
    let mut out = Vec::new();
    for line in lines {
        out.extend_from_slice(line.as_bytes());
        out.push(b'\n');
    }
    out
}

#[test]
fn test_replace_all_literal() {
    let handler = handler_from("hello world\nhello rust\nfoo bar");
    let editor = Editor::new(handler);

    let outcome = editor.replace_all("hello", "hi", true).unwrap();
    assert_eq!(outcome.replacements, 2);

    // Verify changes
    let new_handler = FileHandler::from_bytes(rendered(&outcome.lines)).unwrap();
    assert_eq!(new_handler.get_line(0).unwrap(), "hi world");
    assert_eq!(new_handler.get_line(1).unwrap(), "hi rust");
}

#[test]
fn test_replace_case_insensitive_helper() {
    assert_eq!(Editor::replace_case_insensitive("Hello World", "hello", "hi"), "hi World");
    assert_eq!(Editor::replace_case_insensitive("hello rust", "hello", "hi"), "hi rust");
    assert_eq!(Editor::count_case_insensitive("Hello World", "hello"), 1);
    assert_eq!(Editor::count_case_insensitive("hello rust", "hello"), 1);
}

#[test]
fn test_replace_all_case_insensitive() {
    let result = Editor::replace_case_insensitive("Hello World", "hello", "hi");
    assert_eq!(result, "hi World");

    let result2 = Editor::replace_case_insensitive("HELLO there HELLO", "hello", "hi");
    assert_eq!(result2, "hi there hi");
}

#[test]
fn test_replace_all_regex() {
    let handler = handler_from("test123\nfoo456\ntest789");
    let editor = Editor::new(handler);

    let outcome = editor.replace_all(r"test(\d+)", "num$1", true).unwrap();
    assert_eq!(outcome.replacements, 2);

    // Verify changes
    let new_handler = FileHandler::from_bytes(rendered(&outcome.lines)).unwrap();
    assert_eq!(new_handler.get_line(0).unwrap(), "num123");
    assert_eq!(new_handler.get_line(2).unwrap(), "num789");
}

#[test]
fn test_replace_line() {
    let handler = handler_from("line1\nline2\nline3");
    let mut editor = Editor::new(handler);

    editor.replace_line(1, "modified line".to_string()).unwrap();
    assert_eq!(editor.file_handler().get_line(1).unwrap(), "modified line");
}

#[test]
fn test_modified_content() {
    let handler = handler_from("one\ntwo");
    let mut editor = Editor::new(handler);
    editor.replace_line(0, "uno".to_string()).unwrap();
    assert_eq!(editor.modified_content(), b"uno\ntwo\n".to_vec());
}

#[test]
fn test_replace_all_counts_every_occurrence() {
    let handler = handler_from("aa aa\naa");
    let editor = Editor::new(handler);
    // "aa" is a valid regex, so the auto-dispatch replaces it as one
    let outcome = editor.replace_all("aa", "b", true).unwrap();
    assert_eq!(outcome.replacements, 3);
    assert_eq!(outcome.lines, vec!["b b".to_string(), "b".to_string()]);
}

#[test]
fn test_replace_all_literal_multiple_per_line() {
    let handler = handler_from("cat cat cat");
    let editor = Editor::new(handler);
    let outcome = editor.replace_all_literal("cat", "dog", true).unwrap();
    assert_eq!(outcome.replacements, 3);
    assert_eq!(outcome.lines, vec!["dog dog dog".to_string()]);
}

#[test]
fn test_replace_empty_search_changes_nothing() {
    let handler = handler_from("abc");
    let editor = Editor::new(handler);
    let outcome = editor.replace_all_literal("", "x", true).unwrap();
    assert_eq!(outcome.replacements, 0);
    assert_eq!(outcome.lines, vec!["abc".to_string()]);
    // the dispatching path treats an empty search the same way
    let outcome = editor.replace_all("", "x", true).unwrap();
    assert_eq!(outcome.replacements, 0);
    assert_eq!(outcome.lines, vec!["abc".to_string()]);
}

#[test]
fn test_replace_all_case_insensitive_dispatch() {
    // a case-insensitive replace honors the flag even though the search
    // text would compile as a regex
    let handler = handler_from("Hello World\nhello rust\nHELLO test");
    let editor = Editor::new(handler);
    let outcome = editor.replace_all("hello", "hi", false).unwrap();
    assert_eq!(outcome.replacements, 3);
    assert_eq!(
        outcome.lines,
        vec!["hi World".to_string(), "hi rust".to_string(), "hi test".to_string()]
    );
}

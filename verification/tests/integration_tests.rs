use large_text_viewer::{editor::Editor, file_handler::FileHandler, search::SearchEngine};

fn handler_from(content: &str) -> FileHandler {
    FileHandler::from_bytes(content.as_bytes().to_vec()).unwrap()
}

fn rendered(lines: &[String]) -> Vec<u8> {
    let mut out = Vec::new();
    for line in lines {
        out.extend_from_slice(line.as_bytes());
        out.push(b'\n');
    }
    out
}

#[test]
fn test_end_to_end_file_operations() {
    let content = "line 1\nline 2\nline 3\nline 4\nline 5\n";

    // Open file
    let mut handler = handler_from(content);
    assert_eq!(handler.total_lines(), 5);

    // Get viewport
    let viewport = handler.get_viewport_lines(0, 3);
    assert_eq!(viewport.len(), 3);
    assert_eq!(viewport[0], "line 1");

    // Modify line
    handler.set_line(0, "modified line".to_string()).unwrap();
    assert_eq!(handler.get_line(0).unwrap(), "modified line");
}

#[test]
fn test_search_and_replace_workflow() {
    let content = "apple\nbanana\napple\norange\napple\n";

    // Open and search
    let handler = handler_from(content);
    let searcher = SearchEngine::new(handler);

    let results = searcher.search("apple", true).unwrap();
    assert_eq!(results.len(), 3);
    assert_eq!(results[0].line_number, 0);
    assert_eq!(results[1].line_number, 2);
    assert_eq!(results[2].line_number, 4);

    // Replace all
    let editor = Editor::new(handler_from(content));
    let outcome = editor.replace_all("apple", "fruit", true).unwrap();
    assert_eq!(outcome.replacements, 3);

    // Verify replacement
    let new_handler = FileHandler::from_bytes(rendered(&outcome.lines)).unwrap();
    assert_eq!(new_handler.get_line(0).unwrap(), "fruit");
    assert_eq!(new_handler.get_line(2).unwrap(), "fruit");
    assert_eq!(new_handler.get_line(4).unwrap(), "fruit");
    assert_eq!(new_handler.get_line(1).unwrap(), "banana");
}

#[test]
fn test_large_viewport_navigation() {
    // Create a larger file
    let mut content = String::new();
    for i in 1..=100 {
        content.push_str(&format!("Line {}\n", i));
    }

    let handler = handler_from(&content);
    assert_eq!(handler.total_lines(), 100);

    // Test different viewports
    let viewport1 = handler.get_viewport_lines(0, 10);
    assert_eq!(viewport1.len(), 10);
    assert_eq!(viewport1[0], "Line 1");

    let viewport2 = handler.get_viewport_lines(50, 10);
    assert_eq!(viewport2.len(), 10);
    assert_eq!(viewport2[0], "Line 51");

    let viewport3 = handler.get_viewport_lines(95, 10);
    assert_eq!(viewport3.len(), 5); // Only 5 lines remain
    assert_eq!(viewport3[0], "Line 96");
}

#[test]
fn test_regex_search_and_replace() {
    let content = "test123\nfoo456\ntest789\nbar000\n";

    let handler = handler_from(content);
    let searcher = SearchEngine::new(handler);

    // Regex search
    let regex = regex::Regex::new(r"test\d+").unwrap();
    let results = searcher.search_regex(&regex).unwrap();
    assert_eq!(results.len(), 2);

    // Regex replace
    let editor = Editor::new(handler_from(content));
    let outcome = editor.replace_all(r"test(\d+)", "num$1", true).unwrap();
    assert_eq!(outcome.replacements, 2);

    // Verify
    let new_handler = FileHandler::from_bytes(rendered(&outcome.lines)).unwrap();
    assert_eq!(new_handler.get_line(0).unwrap(), "num123");
    assert_eq!(new_handler.get_line(2).unwrap(), "num789");
}

#[test]
fn test_case_insensitive_operations() {
    let content = "Hello World\nhello rust\nHELLO test\n";

    let handler = handler_from(content);
    let searcher = SearchEngine::new(handler);

    // Case insensitive search
    let results = searcher.search_literal("hello", false).unwrap();
    assert_eq!(results.len(), 3);

    // Case insensitive replace
    let editor = Editor::new(handler_from(content));
    let outcome = editor.replace_all("hello", "hi", false).unwrap();
    assert_eq!(outcome.replacements, 3);
}

#[test]
fn test_edge_cases() {
    // Empty file: the open fails, as a zero-length mapping is disallowed
    let r = FileHandler::from_bytes(Vec::new());
    assert!(matches!(r, Err(large_text_viewer::CoreError::EmptyFile)));

    // Single line without newline
    let handler = handler_from("single line");
    assert_eq!(handler.total_lines(), 1);
    assert_eq!(handler.get_line(0).unwrap(), "single line");

    // File with only newlines
    let handler = handler_from("\n\n\n");
    assert_eq!(handler.total_lines(), 3);
}

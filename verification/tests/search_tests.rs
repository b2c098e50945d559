use large_text_viewer::{FileHandler, SearchEngine};

fn engine_from(content: &str) -> SearchEngine {
    SearchEngine::new(FileHandler::from_bytes(content.as_bytes().to_vec()).unwrap())
}

#[test]
fn test_literal_search() {
    let searcher = engine_from("hello world\nfoo bar\nhello again");

    let results = searcher.search_literal("hello", true).unwrap();
    assert_eq!(results.len(), 2);
    assert_eq!(results[0].line_number, 0);
    assert_eq!(results[1].line_number, 2);
}

#[test]
fn test_case_insensitive_search() {
    let searcher = engine_from("Hello World\nfoo bar");

    let results = searcher.search_literal("hello", false).unwrap();
    assert_eq!(results.len(), 1);
    assert_eq!(results[0].line_number, 0);
}

#[test]
fn test_regex_search() {
    let searcher = engine_from("test123\nfoo456\ntest789");

    let regex = regex::Regex::new(r"test\d+").unwrap();
    let results = searcher.search_regex(&regex).unwrap();
    assert_eq!(results.len(), 2);
}

#[test]
fn test_find_next() {
    let searcher = engine_from("apple\nbanana\napple\norange");

    let result = searcher.find_next("apple", 0, true);
    assert!(result.is_some());
    assert_eq!(result.unwrap().line_number, 2);
}

#[test]
fn test_find_previous() {
    let searcher = engine_from("apple\nbanana\napple\norange");

    let result = searcher.find_previous("apple", 3, true);
    assert!(result.is_some());
    assert_eq!(result.unwrap().line_number, 2);
}

#[test]
fn test_count_matches() {
    let searcher = engine_from("cat\ndog\ncat\ncat\nbird");

    let count = searcher.count_matches("cat", true).unwrap();
    assert_eq!(count, 3);
}

#[test]
fn test_search_auto_regex() {
    let searcher = engine_from("test123\nplain\ntest789");
    let results = searcher.search("test[0-9]+", true).unwrap();
    assert_eq!(results.len(), 2);
    assert_eq!(results[0].match_start, 0);
    assert_eq!(results[0].match_end, 7);
}

#[test]
fn test_match_positions() {
    let searcher = engine_from("say hello there");
    let results = searcher.search_literal("hello", true).unwrap();
    assert_eq!(results.len(), 1);
    assert_eq!(results[0].match_start, 4);
    assert_eq!(results[0].match_end, 9);
    assert_eq!(results[0].line_content, "say hello there");
}

#[test]
fn test_find_next_none_at_end() {
    let searcher = engine_from("apple\nbanana");
    assert!(searcher.find_next("apple", 0, true).is_none());
    assert!(searcher.find_next("apple", 5, true).is_none());
}

#[test]
fn test_find_previous_none_at_start() {
    let searcher = engine_from("apple\nbanana");
    assert!(searcher.find_previous("apple", 0, true).is_none());
}

#[test]
fn test_empty_query_matches_nothing() {
    let searcher = engine_from("a\nb");
    assert!(searcher.search("", true).unwrap().is_empty());
    assert!(searcher.search_literal("", false).unwrap().is_empty());
    assert_eq!(searcher.count_matches("", true).unwrap(), 0);
    assert!(searcher.find_next("", 0, true).is_none());
    assert!(searcher.find_previous("", 1, true).is_none());
}

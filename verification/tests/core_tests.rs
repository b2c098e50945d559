use core::sync::atomic::AtomicBool;
use large_text_viewer::encoding::EncodingId;
use large_text_viewer::line_indexer::LineIndexer;
use large_text_viewer::replacer::{Replacer, trim_to_boundary};
use large_text_viewer::search_engine::{CountPlan, FetchStep, SearchEngine};
use large_text_viewer::session::{NavStep, SearchSession, PAGE_SIZE};
use large_text_viewer::{detect_encoding, is_utf8_char_boundary, FileReader};

fn reader_from(content: &[u8]) -> FileReader {
    FileReader::from_bytes(content.to_vec(), "test".to_string(), EncodingId::Utf8).unwrap()
}

/// Sum the per-range counts of a planned counting job.
fn count_all(engine: &SearchEngine, reader: &FileReader, threads: usize) -> usize {
    let cancel = AtomicBool::new(false);
    match engine.plan_count(reader, threads) {
        CountPlan::ImmediateDone => 0,
        CountPlan::Ranges(ranges) => {
            let mut total = 0;
            for (start, end) in ranges {
                let outcome = engine.count_range(reader, start, end, &cancel).unwrap();
                assert!(!outcome.cancelled);
                total += outcome.count;
            }
            total
        }
    }
}

/// Collect every match of a fetch walk.
fn fetch_all(
    engine: &SearchEngine,
    reader: &FileReader,
    start: usize,
    max: usize,
) -> Vec<(usize, usize)> {
    let cancel = AtomicBool::new(false);
    let mut st = engine.start_fetch(reader, start, max);
    let mut out = Vec::new();
    loop {
        match engine.fetch_next_chunk(&mut st, reader, &cancel) {
            FetchStep::Chunk(c) => {
                for m in c.matches {
                    out.push((m.byte_offset, m.match_len));
                }
            }
            FetchStep::Done => return out,
            FetchStep::Cancelled => panic!("unexpected cancellation"),
            FetchStep::Error(e) => panic!("unexpected error: {}", e),
        }
    }
}

// S1: the sparse line index over a three-line file without trailing newline.
#[test]
fn scenario_line_index() {
    let reader = reader_from(b"abc\ndefghi\njkl");
    let mut idx = LineIndexer::new();
    idx.index_file(&reader);
    assert_eq!(idx.total_lines(), 3);
    assert_eq!(idx.line_range(&reader, 0), Some((0, 4)));
    assert_eq!(idx.line_range(&reader, 1), Some((4, 11)));
    assert_eq!(idx.line_range(&reader, 2), Some((11, 14)));
    assert_eq!(idx.line_range(&reader, 3), None);
    assert_eq!(idx.line_at_offset(&reader, 5), 1);
}

// The same answers must come from a sparse table with a tiny period.
#[test]
fn scenario_line_index_sparse_period() {
    let reader = reader_from(b"abc\ndefghi\njkl");
    let mut idx = LineIndexer::with_period(1);
    idx.index_file(&reader);
    assert_eq!(idx.total_lines(), 3);
    assert_eq!(idx.line_range(&reader, 1), Some((4, 11)));
    assert_eq!(idx.line_at_offset(&reader, 5), 1);
    assert_eq!(idx.line_at_offset(&reader, 0), 0);
    assert_eq!(idx.line_at_offset(&reader, 13), 2);
}

// The line round trip (line_at_offset after line_range) and offset
// containment, checked on concrete values.
#[test]
fn line_index_round_trip() {
    let content = b"one\ntwo\nthree\n\nlast";
    let reader = reader_from(content);
    let mut idx = LineIndexer::with_period(2);
    idx.index_file(&reader);
    let total = idx.total_lines();
    assert_eq!(total, 5);
    for n in 0..total {
        let (start, end) = idx.line_range(&reader, n).unwrap();
        assert_eq!(idx.line_at_offset(&reader, start), n);
        for off in start..end {
            assert_eq!(idx.line_at_offset(&reader, off), n);
        }
    }
}

// A file whose last line lacks a trailing newline: newline count plus one
// lines, and the last range ends at the length.
#[test]
fn no_trailing_newline_total() {
    let reader = reader_from(b"a\nb\nc");
    let mut idx = LineIndexer::new();
    idx.index_file(&reader);
    assert_eq!(idx.total_lines(), 3);
    assert_eq!(idx.line_range(&reader, 2), Some((4, 5)));
}

// S2: a literal case-sensitive pattern yields one match at offset 7, length 2.
#[test]
fn scenario_literal_match() {
    let reader = reader_from(b"abc\ndefghi\njkl");
    let mut engine = SearchEngine::new();
    engine.set_query("gh".to_string(), false, true);
    assert_eq!(count_all(&engine, &reader, 2), 1);
    assert_eq!(fetch_all(&engine, &reader, 0, usize::MAX), vec![(7, 2)]);
}

// S3: a regex pattern with an inline flag yields one match at offset 4,
// length 3.
#[test]
fn scenario_regex_match() {
    let reader = reader_from(b"abc\ndefghi\njkl");
    let mut engine = SearchEngine::new();
    engine.set_query("(?i)DEF".to_string(), true, true);
    assert_eq!(count_all(&engine, &reader, 2), 1);
    assert_eq!(fetch_all(&engine, &reader, 0, usize::MAX), vec![(4, 3)]);
}

// S4: a 50 MiB file with one token in the middle, counted by 8 workers and
// fetched in 10 MiB chunks, still yields exactly one match.
#[test]
fn scenario_large_file_single_token() {
    let len = 50 * 1024 * 1024;
    let mid = 26_214_400;
    let mut content = vec![b'x'; len];
    content[mid - 2..mid + 3].copy_from_slice(b"TOKEN");
    let reader = reader_from(&content);
    let mut engine = SearchEngine::new();
    engine.set_query("TOKEN".to_string(), false, true);
    assert_eq!(count_all(&engine, &reader, 8), 1);
    let matches = fetch_all(&engine, &reader, 0, usize::MAX);
    assert_eq!(matches, vec![(mid - 2, 5)]);
}

// A match straddling a batch and a chunk boundary is returned exactly once.
#[test]
fn boundary_straddling_match_once() {
    // the token crosses both the 4 MiB count-batch boundary and no fetch
    // boundary; a second token crosses the 10 MiB fetch-chunk boundary
    let len = 12 * 1024 * 1024;
    let batch = 4 * 1024 * 1024;
    let chunk = 10 * 1024 * 1024;
    let mut content = vec![b'x'; len];
    content[batch - 2..batch + 3].copy_from_slice(b"TOKEN");
    content[chunk - 3..chunk + 2].copy_from_slice(b"TOKEN");
    let reader = reader_from(&content);
    let mut engine = SearchEngine::new();
    engine.set_query("TOKEN".to_string(), false, true);
    assert_eq!(count_all(&engine, &reader, 3), 2);
    let matches = fetch_all(&engine, &reader, 0, usize::MAX);
    assert_eq!(matches, vec![(batch - 2, 5), (chunk - 3, 5)]);
}

// The sum of the workers' counts equals the match list of one whole-text scan.
#[test]
fn count_equals_whole_scan() {
    let content = b"cat dog cat\ncat\nbird cat";
    let reader = reader_from(content);
    let mut engine = SearchEngine::new();
    engine.set_query("cat".to_string(), false, true);
    let whole = engine.find_in_text(std::str::from_utf8(content).unwrap());
    assert_eq!(whole.len(), 4);
    assert_eq!(count_all(&engine, &reader, 3), whole.len());
    assert_eq!(fetch_all(&engine, &reader, 0, usize::MAX).len(), whole.len());
}

// Fetch respects the start offset and the result budget.
#[test]
fn fetch_budget_and_offset() {
    let reader = reader_from(b"ab ab ab ab");
    let mut engine = SearchEngine::new();
    engine.set_query("ab".to_string(), false, true);
    assert_eq!(fetch_all(&engine, &reader, 0, 2), vec![(0, 2), (3, 2)]);
    assert_eq!(fetch_all(&engine, &reader, 1, usize::MAX), vec![(3, 2), (6, 2), (9, 2)]);
}

// An empty query is answered at once, with no matches and no error.
#[test]
fn empty_query_immediate_done() {
    let reader = reader_from(b"anything");
    let engine = SearchEngine::new();
    assert!(matches!(engine.plan_count(&reader, 4), CountPlan::ImmediateDone));
    let cancel = AtomicBool::new(false);
    let mut st = engine.start_fetch(&reader, 0, usize::MAX);
    assert!(matches!(engine.fetch_next_chunk(&mut st, &reader, &cancel), FetchStep::Done));
    assert!(engine.find_in_text("anything").is_empty());
    // a finished walk answers Done even when the cancel flag is raised
    let raised = AtomicBool::new(true);
    let mut st = engine.start_fetch(&reader, 0, usize::MAX);
    assert!(matches!(engine.fetch_next_chunk(&mut st, &reader, &raised), FetchStep::Done));
}

// An empty rewrite query makes no matches: the input comes back unchanged.
#[test]
fn empty_query_rewrite_is_identity() {
    let cancel = AtomicBool::new(false);
    let outcome = Replacer::replace_all(b"abc", "", "x", false, &cancel).unwrap();
    assert!(!outcome.cancelled);
    assert_eq!(outcome.output, b"abc".to_vec());
    let outcome = Replacer::replace_all(b"abc", "", "x", true, &cancel).unwrap();
    assert_eq!(outcome.output, b"abc".to_vec());
}

// A cancelled rewrite's output is a prefix of the full rewrite.
#[test]
fn cancelled_rewrite_output_is_prefix() {
    let cancel = AtomicBool::new(true);
    let outcome = Replacer::replace_all(b"cat cat", "cat", "dog", false, &cancel).unwrap();
    assert!(outcome.cancelled);
    let full = {
        let go = AtomicBool::new(false);
        Replacer::replace_all(b"cat cat", "cat", "dog", false, &go).unwrap().output
    };
    assert!(full.starts_with(&outcome.output));
}

// An invalid regex is reported as an error, not as matches.
#[test]
fn invalid_regex_reports_error() {
    let reader = reader_from(b"text");
    let mut engine = SearchEngine::new();
    engine.set_query("(".to_string(), true, true);
    let cancel = AtomicBool::new(false);
    let r = engine.count_range(&reader, 0, 4, &cancel);
    assert!(matches!(r, Err(large_text_viewer::CoreError::InvalidRegex(_))));
    let mut st = engine.start_fetch(&reader, 0, 10);
    match engine.fetch_next_chunk(&mut st, &reader, &cancel) {
        FetchStep::Error(m) => assert_eq!(m, "Invalid regex"),
        _ => panic!("expected an error step"),
    }
}

// Once the cancel flag is raised, a step emits nothing further.
#[test]
fn cancellation_stops_workers() {
    let reader = reader_from(b"cat cat cat");
    let mut engine = SearchEngine::new();
    engine.set_query("cat".to_string(), false, true);
    let cancel = AtomicBool::new(true);
    let outcome = engine.count_range(&reader, 0, 11, &cancel).unwrap();
    assert!(outcome.cancelled);
    assert_eq!(outcome.count, 0);
    let mut st = engine.start_fetch(&reader, 0, usize::MAX);
    assert!(matches!(engine.fetch_next_chunk(&mut st, &reader, &cancel), FetchStep::Cancelled));
    let cancelled_rewrite =
        Replacer::replace_all(b"cat", "cat", "dog", false, &cancel).unwrap();
    assert!(cancelled_rewrite.cancelled);
    assert_eq!(cancelled_rewrite.output, b"".to_vec());
}

// S5: literal rewrite replaces left-to-right without overlap.
#[test]
fn scenario_rewrite_literal() {
    let cancel = AtomicBool::new(false);
    let outcome = Replacer::replace_all(b"aaabaa", "aa", "Z", false, &cancel).unwrap();
    assert!(!outcome.cancelled);
    assert_eq!(outcome.output, b"ZabZ".to_vec());
}

// A regex rewrite expands capture references.
#[test]
fn rewrite_regex_captures() {
    let cancel = AtomicBool::new(false);
    let outcome =
        Replacer::replace_all(b"test123 and test789", r"test(\d+)", "num$1", true, &cancel)
            .unwrap();
    assert_eq!(outcome.output, b"num123 and num789".to_vec());
}

// The literal rewrite is case-insensitive.
#[test]
fn rewrite_literal_case_insensitive() {
    let cancel = AtomicBool::new(false);
    let outcome = Replacer::replace_all(b"Cat and CAT", "cat", "dog", false, &cancel).unwrap();
    assert_eq!(outcome.output, b"dog and dog".to_vec());
}

// An invalid rewrite pattern is rejected.
#[test]
fn rewrite_invalid_pattern() {
    let cancel = AtomicBool::new(false);
    let r = Replacer::replace_all(b"abc", "(", "x", true, &cancel);
    assert!(matches!(r, Err(large_text_viewer::CoreError::InvalidRegex(_))));
}

// A reversible, non-overlapping replacement undoes itself.
#[test]
fn rewrite_round_trip() {
    let cancel = AtomicBool::new(false);
    let input = b"the cat sat on the cat mat".to_vec();
    let once = Replacer::replace_all(&input, "cat", "fox", false, &cancel).unwrap();
    assert_eq!(once.output, b"the fox sat on the fox mat".to_vec());
    let back = Replacer::replace_all(&once.output, "fox", "cat", false, &cancel).unwrap();
    assert_eq!(back.output, input);
}

// S6: the pointwise splice replaces a range and adjusts the length exactly.
#[test]
fn scenario_splice() {
    let out = Replacer::splice(b"hello world", 6, 5, b"there!!");
    assert_eq!(out, b"hello there!!".to_vec());
    assert_eq!(out.len(), 13);
}

// Splice changes the length by exactly the difference and leaves bytes
// outside the replaced range unchanged.
#[test]
fn splice_length_and_untouched_bytes() {
    let content = b"0123456789";
    let out = Replacer::splice(content, 3, 4, b"xy");
    assert_eq!(out, b"012xy789".to_vec());
    assert_eq!(out.len() as i64, content.len() as i64 + 2 - 4);
    // grow
    let grown = Replacer::splice(content, 3, 1, b"abc");
    assert_eq!(grown, b"012abc456789".to_vec());
    // batched edits applied in decreasing offset order
    let step1 = Replacer::splice(content, 8, 1, b"");
    let step2 = Replacer::splice(&step1, 1, 1, b"__");
    assert_eq!(step2, b"0__2345679".to_vec());
}

// The byte-order-mark sniff.
#[test]
fn detect_encoding_cases() {
    assert_eq!(detect_encoding(&[0xEF, 0xBB, 0xBF, b'a']), EncodingId::Utf8);
    assert_eq!(detect_encoding(&[0xFF, 0xFE, 0x00]), EncodingId::Utf16Le);
    assert_eq!(detect_encoding(&[0xFE, 0xFF, 0x00]), EncodingId::Utf16Be);
    assert_eq!(detect_encoding(b"plain ascii"), EncodingId::Utf8);
    assert_eq!(detect_encoding(&[0xE9, b'a']), EncodingId::Windows1252);
}

// Decoding goes through the bound encoding, not through the raw bytes.
#[test]
fn reader_decodes_bound_encoding() {
    let utf16 = FileReader::from_bytes(
        vec![b'a', 0x00, b'b', 0x00],
        "t".to_string(),
        EncodingId::Utf16Le,
    )
    .unwrap();
    assert_eq!(utf16.get_chunk(0, 4), "ab");
    let win = FileReader::from_bytes(vec![0xE9], "t".to_string(), EncodingId::Windows1252).unwrap();
    assert_eq!(win.get_chunk(0, 1), "\u{e9}");
    assert_eq!(win.len(), 1);
    assert_eq!(win.get_bytes(0, 10), &[0xE9]);
    assert_eq!(win.get_bytes(5, 2), &[] as &[u8]);
}

// A non-UTF-8 file is searched through its decoding. Match offsets index the
// decoded text, so the padding keeps both hits inside the accepted range.
#[test]
fn search_uses_encoding_fallback() {
    let reader = FileReader::from_bytes(
        vec![0xE9, b' ', 0xE9, b' ', b' '],
        "t".to_string(),
        EncodingId::Windows1252,
    )
    .unwrap();
    let mut engine = SearchEngine::new();
    engine.set_query("\u{e9}".to_string(), false, true);
    assert_eq!(count_all(&engine, &reader, 1), 2);
}

// An escaped literal query does not act as a regex.
#[test]
fn literal_query_is_escaped() {
    let reader = reader_from(b"axb acb a.b");
    let mut engine = SearchEngine::new();
    engine.set_query("a.b".to_string(), false, true);
    assert_eq!(count_all(&engine, &reader, 1), 1);
    assert_eq!(fetch_all(&engine, &reader, 0, usize::MAX), vec![(8, 3)]);
}

// An empty reader cannot be made.
#[test]
fn empty_file_is_refused() {
    let r = FileReader::from_bytes(Vec::new(), "t".to_string(), EncodingId::Utf8);
    assert!(matches!(r, Err(large_text_viewer::CoreError::EmptyFile)));
}

// The channel-closed error kind exists for workers whose consumer went away.
#[test]
fn channel_closed_variant() {
    let e = large_text_viewer::CoreError::ChannelClosed;
    assert!(matches!(e, large_text_viewer::CoreError::ChannelClosed));
}

// UTF-8 boundary helpers.
#[test]
fn utf8_boundary_helpers() {
    assert!(is_utf8_char_boundary(b'a'));
    assert!(is_utf8_char_boundary(0xC3));
    assert!(!is_utf8_char_boundary(0x80));
    assert!(!is_utf8_char_boundary(0xBF));
    // a complete two-byte character stays
    assert_eq!(trim_to_boundary("ab\u{e9}".as_bytes()), 4);
    // a dangling leading byte is cut before
    assert_eq!(trim_to_boundary(&[b'a', 0xC3]), 1);
    // a dangling three-byte prefix is cut before its lead
    assert_eq!(trim_to_boundary(&[b'a', 0xE2, 0x82]), 1);
}

// Highlighting a rendered line reports every in-line match.
#[test]
fn find_in_text_positions() {
    let mut engine = SearchEngine::new();
    engine.set_query("an".to_string(), false, false);
    let hits = engine.find_in_text("An analog plan");
    assert_eq!(hits, vec![(0, 2), (3, 5), (12, 14)]);
    engine.clear();
    assert!(engine.find_in_text("An analog plan").is_empty());
}

// The consumer's session state: wrap-around stepping, page lookup, and the
// decision between serving from the loaded page and fetching another.
#[test]
fn session_navigation() {
    let mut s = SearchSession::new();
    s.total_results = 2500;
    s.page_start = 0;
    s.page_len = 1000;
    s.record_page_offset(0, 0);
    s.record_page_offset(1, 40_000);

    assert_eq!(s.next_index(), 1);
    s.current_index = 2499;
    assert_eq!(s.next_index(), 0);
    assert_eq!(s.previous_index(), 2498);
    s.current_index = 0;
    assert_eq!(s.previous_index(), 2499);

    assert_eq!(s.page_of(999), 0);
    assert_eq!(s.page_of(1000), 1);
    assert_eq!(s.known_page_offset(1), Some(40_000));
    assert_eq!(s.known_page_offset(2), None);

    match s.locate(500) {
        NavStep::Within(local) => assert_eq!(local, 500),
        _ => panic!("index 500 lies in the loaded page"),
    }
    match s.locate(1500) {
        NavStep::Fetch { start_index, start_offset } => {
            assert_eq!(start_index, PAGE_SIZE);
            assert_eq!(start_offset, 40_000);
        }
        _ => panic!("index 1500 needs a fetch"),
    }
    match s.locate(2400) {
        NavStep::Fetch { start_index, start_offset } => {
            assert_eq!(start_index, 0);
            assert_eq!(start_offset, 0);
        }
        _ => panic!("an unknown page restarts from the top"),
    }
}

use vstd::prelude::*;

verus! {

use vstd::string::{StringExecFns, StrSliceExecFns};
use vstd::utf8::encode_utf8;
use crate::errors::CoreError;
use crate::file_handler::{FileHandler, probe_line};
use crate::find::{first_occ, find_sub};
use crate::pattern::{lower_of, to_lowercase, regex_pattern, pattern_ok, regex_matches, regex_new, regex_find_first};
use crate::search_engine::cap_usize;

/// The UTF-8 byte length of a text, as a `usize` holds it.
pub open spec fn byte_len(q: Seq<char>) -> int {
    (encode_utf8(q).len() as usize) as int
}

/// The byte position of a literal query's first hit in a line, comparing the
/// UTF-8 bytes of both, lowercased first when case does not matter. The
/// position indexes the compared rendering of the line.
pub open spec fn line_hit(line: Seq<char>, q: Seq<char>, case_sensitive: bool) -> Option<int> {
    if case_sensitive {
        first_occ(encode_utf8(line), encode_utf8(q))
    } else {
        first_occ(encode_utf8(lower_of(line)), encode_utf8(lower_of(q)))
    }
}

/// One match found by the line-based search: the line's number, its full
/// text, and the matched byte range within the searched rendering of the
/// line.
#[derive(Debug, Clone)]
pub struct SearchResult {
    pub line_number: usize,
    pub line_content: String,
    pub match_start: usize,
    pub match_end: usize,
}

/// The literal search's results over lines `[n, total)`: for each line whose
/// searched rendering holds the query, its number, its text, the hit's byte
/// position, and that position plus the query's byte length (capped at what a
/// `usize` holds).
pub open spec fn literal_hits(
    h: FileHandler,
    q: Seq<char>,
    case_sensitive: bool,
    n: int,
    total: int,
) -> Seq<(int, Seq<char>, int, int)>
    decreases total - n,
{
    if !(0 <= n < total) {
        Seq::empty()
    } else {
        let rest = literal_hits(h, q, case_sensitive, n + 1, total);
        match probe_line(h, n as usize) {
            Some(line) => match line_hit(line, q, case_sensitive) {
                Some(p) => seq![(n, line, p, cap_usize(p + byte_len(q)))] + rest,
                None => rest,
            },
            None => rest,
        }
    }
}

/// The regex search's results over lines `[n, total)`: for each line the
/// pattern matches, its number, its text, and the first match's byte range.
pub open spec fn regex_hits(h: FileHandler, pat: Seq<char>, n: int, total: int) -> Seq<
    (int, Seq<char>, int, int),
>
    decreases total - n,
{
    if !(0 <= n < total) {
        Seq::empty()
    } else {
        let rest = regex_hits(h, pat, n + 1, total);
        match probe_line(h, n as usize) {
            Some(line) => {
                let ms = regex_matches(pat, encode_utf8(line));
                if ms.len() > 0 {
                    seq![(n, line, ms[0].0, ms[0].1)] + rest
                } else {
                    rest
                }
            },
            None => rest,
        }
    }
}

/// The executable results render the spec hits field for field.
pub open spec fn hits_agree(v: Seq<SearchResult>, hs: Seq<(int, Seq<char>, int, int)>) -> bool {
    &&& v.len() == hs.len()
    &&& forall|i: int|
        0 <= i < v.len() ==> {
            &&& (#[trigger] v[i]).line_number == hs[i].0
            &&& v[i].line_content@ == hs[i].1
            &&& v[i].match_start == hs[i].2
            &&& v[i].match_end == hs[i].3
        }
}

/// A line-oriented search over an indexed file: each line is tested on its
/// own, and a match reports the line and the hit's position within it.
pub struct SearchEngine {
    file_handler: FileHandler,
    chunk_size: usize,
}

impl SearchEngine {
    /// The handler whose lines are searched.
    pub closed spec fn spec_handler(&self) -> FileHandler {
        self.file_handler
    }

    pub open spec fn wf(&self) -> bool {
        self.spec_handler().wf()
    }

    /// A search engine over the given file, with the default batching size.
    pub fn new(file_handler: FileHandler) -> (r: SearchEngine)
        requires
            file_handler.wf(),
        ensures
            r.wf(),
            r.spec_handler() == file_handler,
    {
        SearchEngine { file_handler, chunk_size: 1000 }
    }

    /// A search engine with a chosen batching size. The size only shapes how
    /// work would be divided; every search visits each line exactly once.
    pub fn with_chunk_size(file_handler: FileHandler, chunk_size: usize) -> (r: SearchEngine)
        requires
            file_handler.wf(),
        ensures
            r.wf(),
            r.spec_handler() == file_handler,
    {
        SearchEngine { file_handler, chunk_size }
    }

    /// Search with a query that is tried as a regex first: a query that
    /// compiles searches as a regex, any other as a literal. An empty query
    /// matches nothing.
    pub fn search(&self, query: &str, case_sensitive: bool) -> (r: Result<
        Vec<SearchResult>,
        CoreError,
    >)
        requires
            self.wf(),
        ensures
            query@.len() == 0 ==> (r matches Ok(v) && v@.len() == 0),
            query@.len() > 0 ==> (r matches Ok(v) && if pattern_ok(query@) {
                hits_agree(
                    v@,
                    regex_hits(
                        self.spec_handler(),
                        query@,
                        0,
                        total_lines_of_handler(self.spec_handler()),
                    ),
                )
            } else {
                hits_agree(
                    v@,
                    literal_hits(
                        self.spec_handler(),
                        query@,
                        case_sensitive,
                        0,
                        total_lines_of_handler(self.spec_handler()),
                    ),
                )
            }),
            r is Ok,
    {
        if query.unicode_len() == 0 {
            return Ok(Vec::new());
        }
        match regex_new(query) {
            Some(re) => self.search_regex(&re),
            None => self.search_literal(query, case_sensitive),
        }
    }

    /// Search every line for a literal query: a line matches when its UTF-8
    /// bytes hold the query's bytes, both lowercased first when case does not
    /// matter. Reports each matching line once, with the first hit's byte
    /// range. An empty query matches nothing.
    pub fn search_literal(&self, query: &str, case_sensitive: bool) -> (r: Result<
        Vec<SearchResult>,
        CoreError,
    >)
        requires
            self.wf(),
        ensures
            query@.len() == 0 ==> (r matches Ok(v) && v@.len() == 0),
            query@.len() > 0 ==> (r matches Ok(v) && hits_agree(
                v@,
                literal_hits(
                    self.spec_handler(),
                    query@,
                    case_sensitive,
                    0,
                    total_lines_of_handler(self.spec_handler()),
                ),
            )),
            r is Ok,
    {
        if query.unicode_len() == 0 {
            return Ok(Vec::new());
        }
        let ghost h = self.spec_handler();
        let total = self.file_handler.total_lines();
        let ghost gtotal = total as int;
        let query_cmp: String = if case_sensitive {
            String::from_str(query)
        } else {
            to_lowercase(query)
        };
        let qb = query.len();
        let mut out: Vec<SearchResult> = Vec::new();
        let ghost mut hits: Seq<(int, Seq<char>, int, int)> = Seq::empty();
        let mut n: usize = 0;
        proof {
            assert(Seq::<(int, Seq<char>, int, int)>::empty() + literal_hits(
                h,
                query@,
                case_sensitive,
                0,
                gtotal,
            ) =~= literal_hits(h, query@, case_sensitive, 0, gtotal));
        }
        while n < total
            invariant
                self.wf(),
                h == self.spec_handler(),
                gtotal == total as int,
                gtotal == total_lines_of_handler(h),
                n <= total,
                qb as int == byte_len(query@),
                case_sensitive ==> query_cmp@ == query@,
                !case_sensitive ==> query_cmp@ == lower_of(query@),
                hits_agree(out@, hits),
                literal_hits(h, query@, case_sensitive, 0, gtotal) == hits + literal_hits(
                    h,
                    query@,
                    case_sensitive,
                    n as int,
                    gtotal,
                ),
            decreases total - n,
        {
            let line = match self.file_handler.get_line(n) {
                Some(line) => line,
                None => {
                    proof {
                        assert(false);
                    }
                    String::new()
                },
            };
            let search_line: String = if case_sensitive {
                line.clone()
            } else {
                to_lowercase(line.as_str())
            };
            let ghost hits0 = hits;
            let ghost out0 = out@;
            match find_sub(search_line.as_str().as_bytes(), query_cmp.as_str().as_bytes()) {
                Some(p) => {
                    let end = if p <= usize::MAX - qb {
                        p + qb
                    } else {
                        usize::MAX
                    };
                    out.push(
                        SearchResult {
                            line_number: n,
                            line_content: line,
                            match_start: p,
                            match_end: end,
                        },
                    );
                    proof {
                        hits = hits0 + seq![
                            (
                                n as int,
                                probe_line(h, n).unwrap(),
                                p as int,
                                cap_usize(p + byte_len(query@)),
                            ),
                        ];
                        assert(forall|k: int| 0 <= k < out0.len() ==> out@[k] == #[trigger] out0[k]);
                    }
                },
                None => {},
            }
            proof {
                assert(hits + literal_hits(h, query@, case_sensitive, n + 1int, gtotal)
                    =~= literal_hits(h, query@, case_sensitive, 0, gtotal));
            }
            n = n + 1;
        }
        Ok(out)
    }

    /// Search every line with a compiled regex, reporting each matching line
    /// once with its first match's byte range.
    pub fn search_regex(&self, regex: &regex::Regex) -> (r: Result<Vec<SearchResult>, CoreError>)
        requires
            self.wf(),
        ensures
            r matches Ok(v) ==> hits_agree(
                v@,
                regex_hits(
                    self.spec_handler(),
                    regex_pattern(*regex),
                    0,
                    total_lines_of_handler(self.spec_handler()),
                ),
            ),
            r is Ok,
    {
        let ghost h = self.spec_handler();
        let ghost pat = regex_pattern(*regex);
        let total = self.file_handler.total_lines();
        let ghost gtotal = total as int;
        let mut out: Vec<SearchResult> = Vec::new();
        let ghost mut hits: Seq<(int, Seq<char>, int, int)> = Seq::empty();
        let mut n: usize = 0;
        proof {
            assert(Seq::<(int, Seq<char>, int, int)>::empty() + regex_hits(h, pat, 0, gtotal)
                =~= regex_hits(h, pat, 0, gtotal));
        }
        while n < total
            invariant
                self.wf(),
                h == self.spec_handler(),
                pat == regex_pattern(*regex),
                gtotal == total as int,
                gtotal == total_lines_of_handler(h),
                n <= total,
                hits_agree(out@, hits),
                regex_hits(h, pat, 0, gtotal) == hits + regex_hits(h, pat, n as int, gtotal),
            decreases total - n,
        {
            let line = match self.file_handler.get_line(n) {
                Some(line) => line,
                None => {
                    proof {
                        assert(false);
                    }
                    String::new()
                },
            };
            let ghost hits0 = hits;
            let ghost out0 = out@;
            match regex_find_first(regex, line.as_str()) {
                Some((s, e)) => {
                    out.push(
                        SearchResult {
                            line_number: n,
                            line_content: line,
                            match_start: s,
                            match_end: e,
                        },
                    );
                    proof {
                        let ms = regex_matches(pat, encode_utf8(probe_line(h, n).unwrap()));
                        hits = hits0 + seq![(n as int, probe_line(h, n).unwrap(), ms[0].0, ms[0].1)];
                        assert(forall|k: int| 0 <= k < out0.len() ==> out@[k] == #[trigger] out0[k]);
                    }
                },
                None => {},
            }
            proof {
                assert(hits + regex_hits(h, pat, n + 1int, gtotal) =~= regex_hits(h, pat, 0, gtotal));
            }
            n = n + 1;
        }
        Ok(out)
    }

    /// The first literally matching line strictly after `from_line`, if any.
    /// An empty query matches nothing.
    pub fn find_next(&self, query: &str, from_line: usize, case_sensitive: bool) -> (r: Option<
        SearchResult,
    >)
        requires
            self.wf(),
        ensures
            query@.len() == 0 ==> r is None,
            r matches Some(res) ==> {
                let h = self.spec_handler();
                &&& from_line < res.line_number
                &&& (res.line_number as int) < total_lines_of_handler(h)
                &&& probe_line(h, res.line_number) == Some(res.line_content@)
                &&& line_hit(res.line_content@, query@, case_sensitive) == Some(
                    res.match_start as int,
                )
                &&& res.match_end as int == cap_usize(res.match_start + byte_len(query@))
                &&& forall|m: usize|
                    from_line < m < res.line_number ==> line_hit(
                        #[trigger] probe_line(h, m)->Some_0,
                        query@,
                        case_sensitive,
                    ) is None
            },
            r is None && query@.len() > 0 ==> forall|m: usize|
                from_line < (m as int) < total_lines_of_handler(self.spec_handler()) ==> line_hit(
                    #[trigger] probe_line(self.spec_handler(), m)->Some_0,
                    query@,
                    case_sensitive,
                ) is None,
    {
        if query.unicode_len() == 0 {
            return None;
        }
        let ghost h = self.spec_handler();
        let total = self.file_handler.total_lines();
        if from_line >= total {
            return None;
        }
        let query_cmp: String = if case_sensitive {
            String::from_str(query)
        } else {
            to_lowercase(query)
        };
        let qb = query.len();
        let mut n: usize = from_line + 1;
        while n < total
            invariant
                self.wf(),
                h == self.spec_handler(),
                total as int == total_lines_of_handler(h),
                from_line < n <= total,
                query@.len() > 0,
                qb as int == byte_len(query@),
                case_sensitive ==> query_cmp@ == query@,
                !case_sensitive ==> query_cmp@ == lower_of(query@),
                forall|m: usize|
                    from_line < m < n ==> line_hit(
                        #[trigger] probe_line(h, m)->Some_0,
                        query@,
                        case_sensitive,
                    ) is None,
            decreases total - n,
        {
            let line = match self.file_handler.get_line(n) {
                Some(line) => line,
                None => {
                    proof {
                        assert(false);
                    }
                    String::new()
                },
            };
            let search_line: String = if case_sensitive {
                line.clone()
            } else {
                to_lowercase(line.as_str())
            };
            match find_sub(search_line.as_str().as_bytes(), query_cmp.as_str().as_bytes()) {
                Some(p) => {
                    let end = if p <= usize::MAX - qb {
                        p + qb
                    } else {
                        usize::MAX
                    };
                    return Some(
                        SearchResult {
                            line_number: n,
                            line_content: line,
                            match_start: p,
                            match_end: end,
                        },
                    );
                },
                None => {},
            }
            n = n + 1;
        }
        None
    }

    /// The last literally matching line strictly before `from_line`, if any;
    /// an empty query matches nothing. Stored modifications are probed even
    /// beyond the file's own line count.
    pub fn find_previous(&self, query: &str, from_line: usize, case_sensitive: bool) -> (r: Option<
        SearchResult,
    >)
        requires
            self.wf(),
        ensures
            query@.len() == 0 ==> r is None,
            r matches Some(res) ==> {
                let h = self.spec_handler();
                &&& res.line_number < from_line
                &&& probe_line(h, res.line_number) == Some(res.line_content@)
                &&& line_hit(res.line_content@, query@, case_sensitive) == Some(
                    res.match_start as int,
                )
                &&& res.match_end as int == cap_usize(res.match_start + byte_len(query@))
                &&& forall|m: usize|
                    res.line_number < m < from_line ==> (#[trigger] probe_line(h, m) matches Some(
                        l,
                    ) ==> line_hit(l, query@, case_sensitive) is None)
            },
            r is None && query@.len() > 0 ==> forall|m: usize|
                m < from_line ==> (#[trigger] probe_line(self.spec_handler(), m) matches Some(l)
                    ==> line_hit(l, query@, case_sensitive) is None),
    {
        if query.unicode_len() == 0 {
            return None;
        }
        let ghost h = self.spec_handler();
        let query_cmp: String = if case_sensitive {
            String::from_str(query)
        } else {
            to_lowercase(query)
        };
        let qb = query.len();
        let mut n: usize = from_line;
        while n > 0
            invariant
                self.wf(),
                h == self.spec_handler(),
                n <= from_line,
                query@.len() > 0,
                qb as int == byte_len(query@),
                case_sensitive ==> query_cmp@ == query@,
                !case_sensitive ==> query_cmp@ == lower_of(query@),
                forall|m: usize|
                    n <= m < from_line ==> (#[trigger] probe_line(h, m) matches Some(l)
                        ==> line_hit(l, query@, case_sensitive) is None),
            decreases n,
        {
            n = n - 1;
            match self.file_handler.get_line(n) {
                Some(line) => {
                    let search_line: String = if case_sensitive {
                        line.clone()
                    } else {
                        to_lowercase(line.as_str())
                    };
                    match find_sub(search_line.as_str().as_bytes(), query_cmp.as_str().as_bytes()) {
                        Some(p) => {
                            let end = if p <= usize::MAX - qb {
                                p + qb
                            } else {
                                usize::MAX
                            };
                            return Some(
                                SearchResult {
                                    line_number: n,
                                    line_content: line,
                                    match_start: p,
                                    match_end: end,
                                },
                            );
                        },
                        None => {},
                    }
                },
                None => {},
            }
        }
        None
    }

    /// How many lines a literal search hits; an empty query hits none.
    pub fn count_matches(&self, query: &str, case_sensitive: bool) -> (r: Result<usize, CoreError>)
        requires
            self.wf(),
        ensures
            query@.len() == 0 ==> (r matches Ok(c) && c == 0),
            query@.len() > 0 ==> (r matches Ok(c) && c as int == literal_hits(
                self.spec_handler(),
                query@,
                case_sensitive,
                0,
                total_lines_of_handler(self.spec_handler()),
            ).len()),
            r is Ok,
    {
        match self.search_literal(query, case_sensitive) {
            Ok(v) => Ok(v.len()),
            Err(e) => Err(e),
        }
    }
}

/// The line total of a handler's bytes.
pub open spec fn total_lines_of_handler(h: FileHandler) -> int {
    crate::line_indexer::total_lines_of(h.spec_bytes())
}

} // verus!

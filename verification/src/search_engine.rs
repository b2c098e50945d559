use vstd::prelude::*;

verus! {

use vstd::string::{StringExecFns, StrSliceExecFns};
use vstd::utf8::encode_utf8;
use crate::encoding::{EncodingId, decoded, is_utf8, utf8_to_string, decode_bytes};
use crate::file_reader::FileReader;
use crate::pattern::{
    regex_pattern,
    pattern_ok,
    regex_matches,
    escaped,
    regex_new,
    regex_find_all,
    regex_escape,
    ranges_agree,
    match_ranges_wf,
};

/// Batch size of one counting worker's inner loop.
pub const COUNT_BATCH_SIZE: usize = 4 * 1024 * 1024;

/// Chunk size of the sequential fetch walk.
pub const FETCH_CHUNK_SIZE: usize = 10 * 1024 * 1024;

/// The least overlap read beyond a batch or chunk, whatever the query length.
pub const MIN_OVERLAP: usize = 1000;

/// One match: the absolute byte offset where it starts in the file, and its
/// byte length.
#[derive(Clone, Debug)]
pub struct SearchResult {
    pub byte_offset: usize,
    pub match_len: usize,
}

/// The matches one chunk contributed, in strictly increasing offset order.
pub struct ChunkSearchResult {
    pub matches: Vec<SearchResult>,
}

/// Which job a `Done` message closes.
#[derive(Debug, Clone, Copy, PartialEq, Eq, Structural)]
pub enum SearchType {
    Count,
    Fetch,
}

/// What search workers report to the consumer.
pub enum SearchMessage {
    ChunkResult(ChunkSearchResult),
    CountResult(usize),
    Done(SearchType),
    Error(String),
}

/// The pattern text a query compiles to: the query itself when it is a regex,
/// its escaped literal otherwise, with a case-insensitivity flag prefixed when
/// case does not matter.
pub open spec fn query_pattern(q: Seq<char>, use_regex: bool, case_sensitive: bool) -> Seq<char> {
    if use_regex {
        if !case_sensitive {
            "(?i)"@ + q
        } else {
            q
        }
    } else {
        if !case_sensitive {
            "(?i)"@ + escaped(q)
        } else {
            escaped(q)
        }
    }
}

/// The text a worker searches in one byte window: the raw bytes when they are
/// valid UTF-8, else their decoding under the handle's encoding, re-encoded.
pub open spec fn window_text(enc: EncodingId, bytes: Seq<u8>) -> Seq<u8> {
    if is_utf8(bytes) {
        bytes
    } else {
        encode_utf8(decoded(enc, bytes))
    }
}

/// Decode one byte window the way the search workers do: leave valid UTF-8 as
/// it stands, fall back to the handle's encoding otherwise.
fn window_string(enc: EncodingId, bytes: &[u8]) -> (r: String)
    ensures
        encode_utf8(r@) == window_text(enc, bytes@),
{
    match utf8_to_string(bytes) {
        Some(s) => s,
        None => decode_bytes(enc, bytes),
    }
}

/// A configured query: its text, its flags, and the compiled pattern when
/// compilation succeeded.
pub struct SearchEngine {
    query: String,
    use_regex: bool,
    case_sensitive: bool,
    regex: Option<regex::Regex>,
    results: Vec<SearchResult>,
    total_results: usize,
}

impl SearchEngine {
    /// The configured query text.
    pub closed spec fn spec_query(&self) -> Seq<char> {
        self.query@
    }

    pub closed spec fn spec_use_regex(&self) -> bool {
        self.use_regex
    }

    pub closed spec fn spec_case_sensitive(&self) -> bool {
        self.case_sensitive
    }

    /// Whether the engine holds a compiled pattern.
    pub closed spec fn spec_has_regex(&self) -> bool {
        self.regex is Some
    }

    /// The pattern text of the compiled pattern.
    pub closed spec fn spec_pattern(&self) -> Seq<char> {
        match self.regex {
            Some(re) => regex_pattern(re),
            None => Seq::empty(),
        }
    }

    /// The engine's pattern is the one its query and flags call for.
    pub open spec fn compiled(&self) -> bool {
        &&& self.spec_has_regex() == pattern_ok(
            query_pattern(self.spec_query(), self.spec_use_regex(), self.spec_case_sensitive()),
        )
        &&& self.spec_has_regex() ==> self.spec_pattern() == query_pattern(
            self.spec_query(),
            self.spec_use_regex(),
            self.spec_case_sensitive(),
        )
    }

    /// A fresh engine: empty query, nothing compiled, no results.
    pub fn new() -> (r: SearchEngine)
        ensures
            r.spec_query().len() == 0,
            !r.spec_has_regex(),
    {
        SearchEngine {
            query: String::new(),
            use_regex: false,
            case_sensitive: false,
            regex: None,
            results: Vec::new(),
            total_results: 0,
        }
    }

    /// Store a query and compile it: a regex query compiles as written, a
    /// literal one as its escaped text, each prefixed with `(?i)` when case is
    /// to be ignored. Clears any previous results.
    pub fn set_query(&mut self, query: String, use_regex: bool, case_sensitive: bool)
        ensures
            final(self).spec_query() == query@,
            final(self).spec_use_regex() == use_regex,
            final(self).spec_case_sensitive() == case_sensitive,
            final(self).compiled(),
    {
        let pattern: String = if use_regex {
            if !case_sensitive {
                let mut p = String::from_str("(?i)");
                p.append(query.as_str());
                p
            } else {
                query.clone()
            }
        } else {
            if !case_sensitive {
                let escaped_q = regex_escape(query.as_str());
                let mut p = String::from_str("(?i)");
                p.append(escaped_q.as_str());
                p
            } else {
                regex_escape(query.as_str())
            }
        };
        self.regex = regex_new(pattern.as_str());
        self.query = query;
        self.use_regex = use_regex;
        self.case_sensitive = case_sensitive;
        self.results = Vec::new();
    }

    /// Forget the query, the compiled pattern and all results.
    pub fn clear(&mut self)
        ensures
            final(self).spec_query().len() == 0,
            !final(self).spec_has_regex(),
    {
        self.query = String::new();
        self.results = Vec::new();
        self.regex = None;
        self.total_results = 0;
    }

    /// All non-overlapping matches of the query in a short text, as
    /// `(start, end)` byte ranges — used to highlight one rendered line. An
    /// empty or uncompiled query yields no matches.
    pub fn find_in_text(&self, text: &str) -> (r: Vec<(usize, usize)>)
        ensures
            self.spec_query().len() == 0 || !self.spec_has_regex() ==> r@.len() == 0,
            self.spec_query().len() > 0 && self.spec_has_regex() ==> ranges_agree(
                r@,
                regex_matches(self.spec_pattern(), encode_utf8(text@)),
            ) && match_ranges_wf(
                regex_matches(self.spec_pattern(), encode_utf8(text@)),
                encode_utf8(text@).len() as int,
            ),
    {
        if self.query.as_str().unicode_len() == 0 {
            return Vec::new();
        }
        match &self.regex {
            Some(re) => regex_find_all(re, text),
            None => Vec::new(),
        }
    }
}

/// A value capped at what a `usize` can hold.
pub open spec fn cap_usize(x: int) -> int {
    if x <= usize::MAX as int {
        x
    } else {
        usize::MAX as int
    }
}

/// The read overlap for a query of `qb` UTF-8 bytes: one less than the query
/// length, but never less than the floor.
pub open spec fn spec_overlap(qb: int) -> int {
    if qb - 1 > MIN_OVERLAP as int {
        qb - 1
    } else {
        MIN_OVERLAP as int
    }
}

impl SearchEngine {
    /// The overlap the engine's query calls for, over the query's UTF-8 byte
    /// length as a `usize` holds it.
    pub closed spec fn spec_query_overlap(&self) -> int {
        spec_overlap((encode_utf8(self.query@).len() as usize) as int)
    }
}

/// How many matches of a window's match list start below the accept limit
/// (a window-relative offset).
pub open spec fn count_accepted(ms: Seq<(int, int)>, rel_limit: int) -> int
    decreases ms.len(),
{
    if ms.len() == 0 {
        0
    } else {
        count_accepted(ms.drop_last(), rel_limit) + if ms.last().0 < rel_limit {
            1int
        } else {
            0int
        }
    }
}

/// Where the batch beginning at `pos` ends: one batch further, clamped to the
/// worker's range end.
pub open spec fn spec_batch_end(pos: int, range_end: int) -> int {
    if pos + COUNT_BATCH_SIZE as int <= range_end {
        pos + COUNT_BATCH_SIZE as int
    } else {
        range_end
    }
}

/// Where the read window of a batch ends: the batch end plus the overlap,
/// clamped to the file length.
pub open spec fn spec_read_end(batch_end: int, file_len: int, overlap: int) -> int {
    if batch_end + overlap <= file_len {
        batch_end + overlap
    } else {
        file_len
    }
}

/// How many matches the batch `[pos, batch_end)` accepts: matches of the
/// decoded read window `[pos, read_end)` whose window-relative start lies
/// below `batch_end - pos`.
pub open spec fn batch_count(
    pat: Seq<char>,
    enc: EncodingId,
    s: Seq<u8>,
    pos: int,
    batch_end: int,
    read_end: int,
) -> int {
    count_accepted(
        regex_matches(pat, window_text(enc, s.subrange(pos, read_end))),
        batch_end - pos,
    )
}

/// The exact number of matches a worker accepts over `[pos, range_end)`,
/// batch by batch.
pub open spec fn range_count(
    pat: Seq<char>,
    enc: EncodingId,
    s: Seq<u8>,
    pos: int,
    range_end: int,
    overlap: int,
) -> int
    decreases range_end - pos,
{
    if !(0 <= pos < range_end && range_end <= s.len()) {
        0
    } else {
        let be = spec_batch_end(pos, range_end);
        batch_count(pat, enc, s, pos, be, spec_read_end(be, s.len() as int, overlap)) + range_count(
            pat,
            enc,
            s,
            be,
            range_end,
            overlap,
        )
    }
}

/// An accepted-match count is never negative.
proof fn lemma_count_accepted_nonneg(ms: Seq<(int, int)>, rel_limit: int)
    ensures
        count_accepted(ms, rel_limit) >= 0,
    decreases ms.len(),
{
    if ms.len() > 0 {
        lemma_count_accepted_nonneg(ms.drop_last(), rel_limit);
    }
}

/// A range's match count is never negative.
proof fn lemma_range_count_nonneg(
    pat: Seq<char>,
    enc: EncodingId,
    s: Seq<u8>,
    pos: int,
    range_end: int,
    overlap: int,
)
    ensures
        range_count(pat, enc, s, pos, range_end, overlap) >= 0,
    decreases range_end - pos,
{
    if 0 <= pos < range_end && range_end <= s.len() {
        let be = spec_batch_end(pos, range_end);
        lemma_count_accepted_nonneg(
            regex_matches(
                pat,
                window_text(enc, s.subrange(pos, spec_read_end(be, s.len() as int, overlap))),
            ),
            be - pos,
        );
        lemma_range_count_nonneg(pat, enc, s, be, range_end, overlap);
    }
}

/// What one counting worker reports: its accepted-match count, and whether it
/// stopped early because the cancel flag was raised.
pub struct CountOutcome {
    pub count: usize,
    pub cancelled: bool,
}

/// How a count request is to be run: answered at once with no matches, or by
/// one worker per byte range.
pub enum CountPlan {
    ImmediateDone,
    Ranges(Vec<(usize, usize)>),
}

/// The ranges cover `[0, len)` contiguously, in order, without gap or overlap.
pub open spec fn ranges_tile(v: Seq<(usize, usize)>, len: int) -> bool {
    &&& v.len() >= 1
    &&& v[0].0 == 0
    &&& v.last().1 == len
    &&& forall|k: int| 0 <= k < v.len() ==> (#[trigger] v[k]).0 < v[k].1 <= len
    &&& forall|k: int| 1 <= k < v.len() ==> (#[trigger] v[k]).0 == v[k - 1].1
}

impl SearchEngine {
    /// Count the query's matches over the byte range `[range_start,
    /// range_end)` of the reader — one counting worker's whole work. The range
    /// is walked in batches; each batch reads the overlap beyond its end and
    /// accepts exactly the matches that start inside the batch. The cancel
    /// flag is read once per batch; a worker that saw it raised reports
    /// `cancelled`, and its partial count never exceeds the range's full
    /// count. Fails only when the query did not compile.
    pub fn count_range(
        &self,
        reader: &FileReader,
        range_start: usize,
        range_end: usize,
        cancel: &core::sync::atomic::AtomicBool,
    ) -> (r: Result<CountOutcome, crate::errors::CoreError>)
        requires
            range_start <= range_end <= reader@.len(),
        ensures
            r is Err <==> !self.spec_has_regex(),
            r matches Err(e) ==> e matches crate::errors::CoreError::InvalidRegex(m) && m@
                == "Invalid regex"@,
            r matches Ok(o) ==> !o.cancelled ==> o.count as int == cap_usize(
                range_count(
                    self.spec_pattern(),
                    reader.spec_encoding(),
                    reader@,
                    range_start as int,
                    range_end as int,
                    self.spec_query_overlap(),
                ),
            ),
            r matches Ok(o) ==> o.cancelled ==> o.count as int <= cap_usize(
                range_count(
                    self.spec_pattern(),
                    reader.spec_encoding(),
                    reader@,
                    range_start as int,
                    range_end as int,
                    self.spec_query_overlap(),
                ),
            ),
    {
        if self.regex.is_none() {
            return Err(crate::errors::CoreError::InvalidRegex(String::from_str("Invalid regex")));
        }
        let ghost s: Seq<u8> = reader@;
        let ghost pat: Seq<char> = self.spec_pattern();
        let ghost enc: EncodingId = reader.spec_encoding();
        let flen = reader.len();
        let qb = self.query.as_str().len();
        let overlap = if qb >= 1 && qb - 1 > MIN_OVERLAP {
            qb - 1
        } else {
            MIN_OVERLAP
        };
        let mut pos = range_start;
        let mut count: usize = 0;
        let mut cancelled = false;
        let ghost mut done: int = 0;
        while pos < range_end && !cancelled
            invariant
                self.regex matches Some(re2) && regex_pattern(re2) == pat,
                s == reader@,
                enc == reader.spec_encoding(),
                range_start <= pos <= range_end <= flen,
                flen == s.len(),
                overlap as int == self.spec_query_overlap(),
                done + range_count(pat, enc, s, pos as int, range_end as int, overlap as int)
                    == range_count(
                    pat,
                    enc,
                    s,
                    range_start as int,
                    range_end as int,
                    overlap as int,
                ),
                count as int == cap_usize(done),
                0 <= done,
            decreases range_end - pos, (if cancelled {
                0int
            } else {
                1int
            }),
        {
            if cancel.load(core::sync::atomic::Ordering::Relaxed) {
                cancelled = true;
            } else if let Some(re) = &self.regex {
                let batch_end = if range_end - pos > COUNT_BATCH_SIZE {
                    pos + COUNT_BATCH_SIZE
                } else {
                    range_end
                };
                let read_end = if flen - batch_end > overlap {
                    batch_end + overlap
                } else {
                    flen
                };
                let bytes = reader.get_bytes(pos, read_end);
                proof {
                    assert(bytes@ =~= s.subrange(pos as int, read_end as int));
                }
                let text = window_string(reader.encoding(), bytes);
                let ms = regex_find_all(re, text.as_str());
                let ghost msv = regex_matches(pat, window_text(enc, bytes@));
                let rel_limit = batch_end - pos;
                let mut accepted: usize = 0;
                let mut i: usize = 0;
                while i < ms.len()
                    invariant
                        ranges_agree(ms@, msv),
                        i <= ms@.len(),
                        accepted <= i,
                        accepted as int == count_accepted(msv.take(i as int), rel_limit as int),
                    decreases ms@.len() - i,
                {
                    proof {
                        assert(msv.take(i + 1int).drop_last() =~= msv.take(i as int));
                        assert(msv.take(i + 1int).last() == msv[i as int]);
                    }
                    if ms[i].0 < rel_limit {
                        accepted = accepted + 1;
                    }
                    i = i + 1;
                }
                proof {
                    assert(msv.take(ms@.len() as int) =~= msv);
                    assert(batch_count(pat, enc, s, pos as int, batch_end as int, read_end as int)
                        == accepted as int);
                    assert(range_count(pat, enc, s, pos as int, range_end as int, overlap as int)
                        == accepted as int + range_count(
                        pat,
                        enc,
                        s,
                        batch_end as int,
                        range_end as int,
                        overlap as int,
                    ));
                    done = done + accepted as int;
                }
                if count <= usize::MAX - accepted {
                    count = count + accepted;
                } else {
                    count = usize::MAX;
                }
                pos = batch_end;
            } else {
                proof {
                    assert(false);
                }
            }
        }
        proof {
            // even a count cut short never exceeds the range's full count
            lemma_range_count_nonneg(pat, enc, s, pos as int, range_end as int, overlap as int);
        }
        Ok(CountOutcome { count, cancelled })
    }

    /// Decide how a count request runs: a missing file or an empty query is
    /// answered at once with no matches and a completed job; otherwise the
    /// file's bytes are split into one contiguous range per worker.
    pub fn plan_count(&self, reader: &FileReader, num_threads: usize) -> (r: CountPlan)
        requires
            num_threads >= 1,
        ensures
            r is ImmediateDone <==> (reader@.len() == 0 || self.spec_query().len() == 0),
            r matches CountPlan::Ranges(v) ==> ranges_tile(v@, reader@.len() as int),
    {
        let flen = reader.len();
        if flen == 0 || self.query.as_str().unicode_len() == 0 {
            return CountPlan::ImmediateDone;
        }
        proof {
            assert((flen as int - 1) / (num_threads as int) <= flen as int - 1 && 0 <= (flen as int
                - 1) / (num_threads as int)) by (nonlinear_arith)
                requires
                    flen >= 1,
                    num_threads >= 1,
            ;
        }
        let chunk = (flen - 1) / num_threads + 1;
        let mut ranges: Vec<(usize, usize)> = Vec::new();
        let mut start: usize = 0;
        while start < flen
            invariant
                chunk >= 1,
                start <= flen,
                start < flen ==> (ranges@.len() == 0 <==> start == 0),
                ranges@.len() > 0 ==> start == ranges@.last().1 && ranges@[0].0 == 0,
                start == flen ==> ranges_tile(ranges@, flen as int),
                forall|k: int| 0 <= k < ranges@.len() ==> (#[trigger] ranges@[k]).0 < ranges@[k].1
                    <= flen,
                forall|k: int| 1 <= k < ranges@.len() ==> (#[trigger] ranges@[k]).0 == ranges@[k
                    - 1].1,
            decreases flen - start,
        {
            let end = if flen - start > chunk {
                start + chunk
            } else {
                flen
            };
            let ghost prev = ranges@;
            ranges.push((start, end));
            proof {
                assert(forall|k: int| 0 <= k < prev.len() ==> ranges@[k] == #[trigger] prev[k]);
            }
            start = end;
        }
        CountPlan::Ranges(ranges)
    }
}

/// Where the fetch chunk beginning at `cs` ends: one chunk further, clamped to
/// the file length.
pub open spec fn spec_chunk_end(cs: int, flen: int) -> int {
    if cs + FETCH_CHUNK_SIZE as int <= flen {
        cs + FETCH_CHUNK_SIZE as int
    } else {
        flen
    }
}

/// Where a fetch chunk's accept range ends: the overlap short of the chunk's
/// end, or the file length when the chunk reaches it.
pub open spec fn spec_valid_end(cs: int, flen: int, overlap: int) -> int {
    let ce = spec_chunk_end(cs, flen);
    if ce >= flen {
        flen
    } else {
        ce - overlap
    }
}

/// The first `budget` matches of a window's match list whose window-relative
/// start lies below the accept limit, in order.
pub open spec fn take_accepted(ms: Seq<(int, int)>, rel_limit: int, budget: int) -> Seq<(int, int)>
    decreases ms.len(),
{
    if ms.len() == 0 || budget <= 0 {
        Seq::empty()
    } else if ms[0].0 < rel_limit {
        seq![ms[0]] + take_accepted(ms.drop_first(), rel_limit, budget - 1)
    } else {
        take_accepted(ms.drop_first(), rel_limit, budget)
    }
}

/// The executable results render the spec matches: each carries the absolute
/// offset `base + start` and the match's byte length.
pub open spec fn results_agree(v: Seq<SearchResult>, ms: Seq<(int, int)>, base: int) -> bool {
    &&& v.len() == ms.len()
    &&& forall|i: int|
        0 <= i < v.len() ==> (#[trigger] v[i]).byte_offset == base + ms[i].0 && v[i].match_len
            == ms[i].1 - ms[i].0
}

/// The walking state of one sequential fetch: where the next chunk starts,
/// how many results were accepted so far, the result budget, the read overlap,
/// and whether the walk has ended.
pub struct FetchState {
    pub chunk_start: usize,
    pub results_found: usize,
    pub max_results: usize,
    pub overlap: usize,
    pub finished: bool,
}

impl FetchState {
    /// The overlap stays below the chunk size (so every chunk makes forward
    /// progress) and the found count stays within the budget.
    pub open spec fn wf(&self) -> bool {
        &&& (self.overlap as int) < FETCH_CHUNK_SIZE as int
        &&& self.results_found <= self.max_results
    }
}

/// What one fetch step yields: a chunk's accepted matches (possibly none),
/// the end of the walk, a cancellation, or a compile failure.
pub enum FetchStep {
    Chunk(ChunkSearchResult),
    Done,
    Cancelled,
    Error(String),
}

/// The whole effect of one fetched chunk: the returned matches render exactly
/// the first in-budget accepted matches of the chunk's window, their offsets
/// are strictly increasing and confined to the accept range, and the state
/// advances to the accept range's end (or finishes at the file's end).
pub open spec fn fetch_chunk_post(
    c: ChunkSearchResult,
    st0: FetchState,
    st1: FetchState,
    pat: Seq<char>,
    enc: EncodingId,
    s: Seq<u8>,
) -> bool {
    let cs = st0.chunk_start as int;
    let flen = s.len() as int;
    let ce = spec_chunk_end(cs, flen);
    let ve = spec_valid_end(cs, flen, st0.overlap as int);
    let ms = regex_matches(pat, window_text(enc, s.subrange(cs, ce)));
    let acc = take_accepted(ms, ve - cs, st0.max_results - st0.results_found);
    &&& results_agree(c.matches@, acc, cs)
    &&& forall|a: int, b: int|
        0 <= a < b < c.matches@.len() ==> (#[trigger] c.matches@[a]).byte_offset
            < (#[trigger] c.matches@[b]).byte_offset
    &&& forall|a: int|
        0 <= a < c.matches@.len() ==> cs <= (#[trigger] c.matches@[a]).byte_offset < ve
    &&& st1.results_found as int == st0.results_found + acc.len()
    &&& st1.max_results == st0.max_results
    &&& st1.overlap == st0.overlap
    &&& st1.finished == (ce >= flen)
    &&& st1.chunk_start as int == if ce >= flen {
        cs
    } else {
        ve
    }
    &&& cs < ve
}

impl SearchEngine {
    /// The overlap a fetch walk uses: the query's overlap, kept below the
    /// chunk size so that every chunk makes forward progress.
    pub closed spec fn spec_fetch_overlap(&self) -> int {
        if self.spec_query_overlap() >= FETCH_CHUNK_SIZE as int {
            FETCH_CHUNK_SIZE as int - 1
        } else {
            self.spec_query_overlap()
        }
    }

    /// Begin a sequential fetch walk at `start_offset`, bounded by
    /// `max_results`. A walk over no bytes or with an empty query is born
    /// finished: its first step reports `Done` with no matches and no error.
    pub fn start_fetch(&self, reader: &FileReader, start_offset: usize, max_results: usize) -> (st:
        FetchState)
        ensures
            st.wf(),
            st.chunk_start == start_offset,
            st.results_found == 0,
            st.max_results == max_results,
            st.overlap as int == self.spec_fetch_overlap(),
            st.finished <==> (reader@.len() == 0 || self.spec_query().len() == 0),
    {
        let qb = self.query.as_str().len();
        let mut overlap = if qb >= 1 && qb - 1 > MIN_OVERLAP {
            qb - 1
        } else {
            MIN_OVERLAP
        };
        if overlap >= FETCH_CHUNK_SIZE {
            overlap = FETCH_CHUNK_SIZE - 1;
        }
        let finished = reader.len() == 0 || self.query.as_str().unicode_len() == 0;
        FetchState { chunk_start: start_offset, results_found: 0, max_results, overlap, finished }
    }

    /// Walk one chunk of a fetch: read the chunk plus nothing (the overlap is
    /// left to the next chunk's start), accept the matches that start before
    /// the accept limit, and move the walk to that limit, so that every offset
    /// is accepted by exactly one chunk. A walk that is already over — born
    /// finished, past the file's end, or out of budget — answers `Done` at
    /// once. Otherwise the cancel flag is read once, at the start of the step;
    /// a raised flag yields `Cancelled`, leaves the state untouched, and emits
    /// no matches.
    pub fn fetch_next_chunk(
        &self,
        st: &mut FetchState,
        reader: &FileReader,
        cancel: &core::sync::atomic::AtomicBool,
    ) -> (r: FetchStep)
        requires
            old(st).wf(),
        ensures
            final(st).wf(),
            old(st).finished ==> r is Done && *final(st) == *old(st),
            r is Cancelled ==> *final(st) == *old(st),
            r is Done ==> (old(st).finished || old(st).chunk_start >= reader@.len() || old(
                st,
            ).results_found >= old(st).max_results) && final(st).finished,
            r is Error ==> !self.spec_has_regex() && final(st).finished,
            r matches FetchStep::Error(m) ==> m@ == "Invalid regex"@,
            r is Chunk ==> !old(st).finished && old(st).chunk_start < reader@.len() && old(
                st,
            ).results_found < old(st).max_results && self.spec_has_regex(),
            r matches FetchStep::Chunk(c) ==> fetch_chunk_post(
                c,
                *old(st),
                *final(st),
                self.spec_pattern(),
                reader.spec_encoding(),
                reader@,
            ),
    {
        let ghost s: Seq<u8> = reader@;
        let flen = reader.len();
        if st.finished || st.chunk_start >= flen || st.results_found >= st.max_results {
            st.finished = true;
            return FetchStep::Done;
        }
        if cancel.load(core::sync::atomic::Ordering::Relaxed) {
            return FetchStep::Cancelled;
        }
        if let Some(re) = &self.regex {
            let ghost pat: Seq<char> = self.spec_pattern();
            let ghost enc: EncodingId = reader.spec_encoding();
            let cs = st.chunk_start;
            let overlap = st.overlap;
            let found0 = st.results_found;
            let max_results = st.max_results;
            let ce = if flen - cs > FETCH_CHUNK_SIZE {
                cs + FETCH_CHUNK_SIZE
            } else {
                flen
            };
            let ve = if ce >= flen {
                flen
            } else {
                ce - overlap
            };
            let bytes = reader.get_bytes(cs, ce);
            proof {
                assert(bytes@ =~= s.subrange(cs as int, ce as int));
            }
            let text = window_string(reader.encoding(), bytes);
            let ms = regex_find_all(re, text.as_str());
            let ghost msv = regex_matches(pat, window_text(enc, bytes@));
            let ghost hay_len = window_text(enc, bytes@).len() as int;
            let rel_limit = ve - cs;
            let budget = max_results - found0;
            let mut out: Vec<SearchResult> = Vec::new();
            let mut taken: usize = 0;
            let mut i: usize = 0;
            let ghost mut taken_ms: Seq<(int, int)> = Seq::empty();
            let ghost mut last_idx: int = 0;
            proof {
                assert(msv.skip(0) =~= msv);
                assert(Seq::<(int, int)>::empty() + take_accepted(
                    msv,
                    rel_limit as int,
                    budget as int,
                ) =~= take_accepted(msv, rel_limit as int, budget as int));
            }
            while i < ms.len() && taken < budget
                invariant
                    ranges_agree(ms@, msv),
                    match_ranges_wf(msv, hay_len),
                    i <= ms@.len(),
                    taken <= budget,
                    taken == out@.len() == taken_ms.len(),
                    cs < ve <= flen,
                    rel_limit == ve - cs,
                    take_accepted(msv, rel_limit as int, budget as int) == taken_ms
                        + take_accepted(
                        msv.skip(i as int),
                        rel_limit as int,
                        budget - taken as int,
                    ),
                    results_agree(out@, taken_ms, cs as int),
                    out@.len() > 0 ==> 0 <= last_idx < i < ms@.len() + 1 && out@.last().byte_offset
                        == cs + msv[last_idx].0,
                    forall|a: int, b: int|
                        0 <= a < b < out@.len() ==> (#[trigger] out@[a]).byte_offset
                            < (#[trigger] out@[b]).byte_offset,
                    forall|a: int|
                        0 <= a < out@.len() ==> cs <= (#[trigger] out@[a]).byte_offset < ve,
                decreases ms@.len() - i,
            {
                proof {
                    assert(msv.skip(i as int).drop_first() =~= msv.skip(i + 1int));
                    assert(msv.skip(i as int)[0] == msv[i as int]);
                }
                let (m0, m1) = ms[i];
                if m0 < rel_limit {
                    let ghost out0 = out@;
                    out.push(SearchResult { byte_offset: cs + m0, match_len: m1 - m0 });
                    proof {
                        if taken_ms.len() > 0 {
                            assert(msv[last_idx].0 < msv[i as int].0);
                        }
                        taken_ms = taken_ms.push(msv[i as int]);
                        last_idx = i as int;
                        assert(taken_ms =~= taken_ms.drop_last().push(msv[i as int]));
                        assert(take_accepted(msv.skip(i as int), rel_limit as int, budget - taken
                            as int) =~= seq![msv[i as int]] + take_accepted(
                            msv.skip(i + 1int),
                            rel_limit as int,
                            budget - taken - 1int,
                        ));
                        assert(taken_ms.drop_last() + (seq![msv[i as int]] + take_accepted(
                            msv.skip(i + 1int),
                            rel_limit as int,
                            budget - taken - 1int,
                        )) =~= taken_ms + take_accepted(
                            msv.skip(i + 1int),
                            rel_limit as int,
                            budget - taken - 1int,
                        ));
                    }
                    taken = taken + 1;
                } else {
                    proof {
                        assert(take_accepted(msv.skip(i as int), rel_limit as int, budget - taken
                            as int) == take_accepted(
                            msv.skip(i + 1int),
                            rel_limit as int,
                            budget - taken as int,
                        ));
                    }
                }
                i = i + 1;
            }
            proof {
                if taken < budget {
                    assert(msv.skip(ms@.len() as int) =~= Seq::<(int, int)>::empty());
                }
                assert(take_accepted(msv, rel_limit as int, budget as int) =~= taken_ms);
            }
            st.results_found = found0 + taken;
            if ce >= flen {
                st.finished = true;
            } else {
                st.chunk_start = ve;
            }
            FetchStep::Chunk(ChunkSearchResult { matches: out })
        } else {
            st.finished = true;
            FetchStep::Error(String::from_str("Invalid regex"))
        }
    }
}

/// Offset `o` lies in the accept window of batch `j` of worker range `k`: the
/// window begins `j` whole batches into the range and ends a batch later,
/// clamped to the range's end. A counting worker accepts a match exactly when
/// its absolute start lies in such a window.
pub open spec fn in_accept_window(v: Seq<(usize, usize)>, k: int, j: int, o: int) -> bool {
    &&& 0 <= k < v.len()
    &&& 0 <= j
    &&& v[k].0 + j * (COUNT_BATCH_SIZE as int) <= o
    &&& o < spec_batch_end(v[k].0 + j * (COUNT_BATCH_SIZE as int), v[k].1 as int)
}

/// Earlier worker ranges of a tiling end at or before later ones begin.
proof fn lemma_tile_sorted(v: Seq<(usize, usize)>, len: int, k1: int, k2: int)
    requires
        ranges_tile(v, len),
        0 <= k1 < k2 < v.len(),
    ensures
        v[k1].1 <= v[k2].0,
    decreases k2 - k1,
{
    if k1 + 1 < k2 {
        lemma_tile_sorted(v, len, k1, k2 - 1);
    }
}

/// Every in-range offset lies in some worker range of a tiling.
proof fn lemma_tile_find(v: Seq<(usize, usize)>, len: int, o: int) -> (k: int)
    requires
        ranges_tile(v, len),
        0 <= o < len,
    ensures
        0 <= k < v.len(),
        v[k].0 <= o < v[k].1,
    decreases v.len(),
{
    if o < v.last().0 {
        let w = v.drop_last();
        assert(v.len() >= 2);
        assert(ranges_tile(w, v.last().0 as int)) by {
            assert(w.last() == v[v.len() - 2]);
            assert(forall|k: int| 0 <= k < w.len() ==> w[k] == #[trigger] v[k]);
            assert forall|k: int| 0 <= k < w.len() implies (#[trigger] w[k]).0 < w[k].1
                <= v.last().0 by {
                if k < w.len() - 1 {
                    lemma_tile_sorted(v, len, k + 1, v.len() - 1);
                }
            }
        }
        let k = lemma_tile_find(w, v.last().0 as int, o);
        k
    } else {
        v.len() - 1
    }
}

/// Exactly-once acceptance: given worker ranges that tile the file, every
/// in-range byte offset lies in the accept window of exactly one
/// (worker, batch) pair. A match straddling a batch or worker boundary is
/// therefore accepted by one window alone, and the workers' counts add up
/// without double counting.
pub proof fn lemma_accept_windows_partition(v: Seq<(usize, usize)>, len: int, o: int)
    requires
        ranges_tile(v, len),
        0 <= o < len,
    ensures
        exists|kj: (int, int)| in_accept_window(v, kj.0, kj.1, o),
        forall|k1: int, j1: int, k2: int, j2: int|
            in_accept_window(v, k1, j1, o) && in_accept_window(v, k2, j2, o) ==> k1 == k2 && j1
                == j2,
{
    let b = COUNT_BATCH_SIZE as int;
    // existence: the range holding `o`, and the batch `(o - start) / b` into it
    let k = lemma_tile_find(v, len, o);
    let a = v[k].0 as int;
    let j = (o - a) / b;
    vstd::arithmetic::div_mod::lemma_fundamental_div_mod(o - a, b);
    vstd::arithmetic::div_mod::lemma_mod_bound(o - a, b);
    assert(o - a == b * j + ((o - a) % b));
    assert(b * j == j * b) by (nonlinear_arith);
    assert(a + j * b <= o < a + j * b + b);
    assert(in_accept_window(v, k, j, o));
    assert(exists|kj: (int, int)| in_accept_window(v, kj.0, kj.1, o)) by {
        assert(in_accept_window(v, (k, j).0, (k, j).1, o));
    }
    // uniqueness: windows of one range are disjoint, and so are the ranges
    assert forall|k1: int, j1: int, k2: int, j2: int|
        in_accept_window(v, k1, j1, o) && in_accept_window(v, k2, j2, o) implies k1 == k2 && j1
        == j2 by {
        let a1 = v[k1].0 as int;
        let a2 = v[k2].0 as int;
        assert(j1 * b >= 0 && j2 * b >= 0) by (nonlinear_arith)
            requires
                j1 >= 0,
                j2 >= 0,
                b > 0,
        ;
        // `o` lies inside both worker ranges, so the ranges are one
        if k1 < k2 {
            lemma_tile_sorted(v, len, k1, k2);
        }
        if k2 < k1 {
            lemma_tile_sorted(v, len, k2, k1);
        }
        // same range: batches `j1 < j2` cannot both hold `o`
        if j1 < j2 {
            assert((j1 + 1) * b <= j2 * b) by (nonlinear_arith)
                requires
                    j1 + 1 <= j2,
                    b > 0,
            ;
            assert((j1 + 1) * b == j1 * b + b) by (nonlinear_arith);
        }
        if j2 < j1 {
            assert((j2 + 1) * b <= j1 * b) by (nonlinear_arith)
                requires
                    j2 + 1 <= j1,
                    b > 0,
            ;
            assert((j2 + 1) * b == j2 * b + b) by (nonlinear_arith);
        }
    }
}

} // verus!

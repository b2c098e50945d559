use vstd::prelude::*;

verus! {

use crate::file_reader::FileReader;

/// The newline byte the indexer counts. Carriage returns are tolerated as
/// ordinary content.
pub open spec fn is_nl(b: u8) -> bool {
    b == 10u8
}

/// Number of newline bytes in `s[0..i)`.
pub open spec fn count_nl(s: Seq<u8>, i: int) -> int
    decreases i,
{
    if i <= 0 {
        0
    } else {
        count_nl(s, i - 1) + if is_nl(s[i - 1]) {
            1int
        } else {
            0int
        }
    }
}

/// The 0-based line number that byte offset `o` falls in.
pub open spec fn line_of(s: Seq<u8>, o: int) -> int {
    count_nl(s, o)
}

/// Total line count: the newline count, plus one more line when the file does
/// not end in a newline (or is empty).
pub open spec fn total_lines_of(s: Seq<u8>) -> int {
    count_nl(s, s.len() as int) + if s.len() > 0 && is_nl(s[s.len() - 1]) {
        0int
    } else {
        1int
    }
}

/// Offset `o` begins a line: it is the start of the file or follows a newline.
pub open spec fn is_line_start(s: Seq<u8>, o: int) -> bool {
    0 <= o <= s.len() && (o == 0 || is_nl(s[o - 1]))
}

/// The least offset `j >= o` holding a newline, or the length when none does.
pub open spec fn next_nl(s: Seq<u8>, o: int) -> int
    decreases s.len() - o,
{
    if 0 <= o < s.len() {
        if is_nl(s[o]) {
            o
        } else {
            next_nl(s, o + 1)
        }
    } else {
        s.len() as int
    }
}

/// The byte offset at which line `n` starts.
pub open spec fn line_start_of(s: Seq<u8>, n: int) -> int
    decreases n,
{
    if n <= 0 {
        0
    } else {
        let prev = line_start_of(s, n - 1);
        if next_nl(s, prev) < s.len() {
            next_nl(s, prev) + 1
        } else {
            s.len() as int
        }
    }
}

/// The exclusive byte offset at which line `n` ends: one past its newline, or
/// the file length for the last line without a trailing newline.
pub open spec fn line_end_of(s: Seq<u8>, n: int) -> int {
    let st = line_start_of(s, n);
    if next_nl(s, st) < s.len() {
        next_nl(s, st) + 1
    } else {
        s.len() as int
    }
}

/// Counting newlines is monotone in the prefix length.
pub proof fn lemma_count_nl_monotone(s: Seq<u8>, a: int, b: int)
    requires
        a <= b,
    ensures
        count_nl(s, a) <= count_nl(s, b),
    decreases b - a,
{
    if a < b {
        lemma_count_nl_monotone(s, a, b - 1);
    }
}

/// A newline inside `[a, b)` separates the counts.
pub proof fn lemma_count_nl_step_up(s: Seq<u8>, a: int, b: int, j: int)
    requires
        0 <= a <= j < b,
        is_nl(s[j]),
    ensures
        count_nl(s, a) < count_nl(s, b),
{
    lemma_count_nl_monotone(s, a, j);
    lemma_count_nl_monotone(s, j + 1, b);
}

/// Shape of `next_nl`: it lies in `[o, len]`, nothing before it (from `o` on)
/// is a newline, and it points at a newline unless it is the length.
pub proof fn lemma_next_nl(s: Seq<u8>, o: int)
    requires
        0 <= o <= s.len(),
    ensures
        o <= next_nl(s, o) <= s.len(),
        next_nl(s, o) < s.len() ==> is_nl(s[next_nl(s, o)]),
        forall|j: int| o <= j < next_nl(s, o) ==> !is_nl(s[j]),
        count_nl(s, next_nl(s, o)) == count_nl(s, o),
    decreases s.len() - o,
{
    if o < s.len() && !is_nl(s[o]) {
        lemma_next_nl(s, o + 1);
    }
}

/// If more newlines lie before `b` than before `a`, a newline sits in `[a, b)`
/// and `next_nl(s, a)` lands strictly before `b`.
pub proof fn lemma_next_nl_before(s: Seq<u8>, a: int, b: int)
    requires
        0 <= a <= b <= s.len(),
        count_nl(s, a) < count_nl(s, b),
    ensures
        next_nl(s, a) < b,
        count_nl(s, next_nl(s, a) + 1) == count_nl(s, a) + 1,
    decreases b - a,
{
    lemma_next_nl(s, a);
    if is_nl(s[a]) {
    } else {
        lemma_next_nl_before(s, a + 1, b);
    }
}

/// Shape of line starts: for `n` within the line count, line `n` starts at a
/// line-start offset whose prefix holds exactly `n` newlines, strictly inside
/// the file.
pub proof fn lemma_line_start(s: Seq<u8>, n: int)
    requires
        0 <= n < total_lines_of(s),
    ensures
        is_line_start(s, line_start_of(s, n)),
        count_nl(s, line_start_of(s, n)) == n,
        0 <= line_start_of(s, n) < s.len() || s.len() == 0,
    decreases n,
{
    if n == 0 {
        if s.len() > 0 {
            lemma_count_nl_monotone(s, 0, s.len() as int);
        }
    } else {
        lemma_line_start(s, n - 1);
        let prev = line_start_of(s, n - 1);
        // line n exists, so at least n newlines lie in the whole file
        assert(count_nl(s, s.len() as int) >= n) by {
            if s.len() > 0 && is_nl(s[s.len() - 1]) {
            } else {
            }
        }
        lemma_next_nl_before(s, prev, s.len() as int);
        lemma_next_nl(s, prev);
        let st = line_start_of(s, n);
        assert(st == next_nl(s, prev) + 1);
        assert(count_nl(s, st) == n);
        // st < len: were st == len, the last byte would be the n-th newline,
        // making the total n, contradicting n < total
        if st == s.len() {
            assert(is_nl(s[s.len() - 1]));
        }
    }
}

/// For any line `n` below the total, mapping the first byte offset of line `n`
/// back to a line number yields `n` itself.
pub proof fn lemma_line_round_trip(s: Seq<u8>, n: int)
    requires
        0 <= n < total_lines_of(s),
    ensures
        line_of(s, line_start_of(s, n)) == n,
{
    lemma_line_start(s, n);
}

/// Any in-range byte offset lies inside the byte range of the line it maps
/// to, and that line lies below the total.
pub proof fn lemma_offset_in_line_range(s: Seq<u8>, o: int)
    requires
        0 <= o < s.len(),
    ensures
        0 <= line_of(s, o) < total_lines_of(s),
        line_start_of(s, line_of(s, o)) <= o < line_end_of(s, line_of(s, o)),
{
    let n = line_of(s, o);
    lemma_count_nl_monotone(s, 0, o);
    // n < total
    if is_nl(s[s.len() - 1]) {
        lemma_count_nl_step_up(s, o, s.len() as int, s.len() - 1);
    } else {
        lemma_count_nl_monotone(s, o, s.len() as int);
    }
    lemma_line_start_le(s, n, o);
    let st = line_start_of(s, n);
    lemma_line_start(s, n);
    // o < end: a newline at next_nl(st) at an index < o would raise the count
    lemma_next_nl(s, st);
    let e = line_end_of(s, n);
    if next_nl(s, st) < s.len() {
        if o >= e {
            lemma_count_nl_step_up(s, st, o, next_nl(s, st));
        }
    }
}

/// If at least `n` newlines lie before `o`, line `n` starts at or before `o`.
pub proof fn lemma_line_start_le(s: Seq<u8>, n: int, o: int)
    requires
        0 <= o <= s.len(),
        count_nl(s, o) >= n,
    ensures
        line_start_of(s, n) <= o,
    decreases n,
{
    if n > 0 {
        lemma_line_start_le(s, n - 1, o);
        lemma_line_start_aux(s, n - 1);
        let prev = line_start_of(s, n - 1);
        // at most n - 1 newlines precede `prev`, at least n precede `o`
        lemma_next_nl_before(s, prev, o);
        lemma_next_nl(s, prev);
    }
}

/// Auxiliary: for every `n >= 0`, the count of newlines before `line_start_of(s, n)`
/// never exceeds `n`.
pub proof fn lemma_line_start_aux(s: Seq<u8>, n: int)
    requires
        0 <= n,
    ensures
        0 <= line_start_of(s, n) <= s.len(),
        count_nl(s, line_start_of(s, n)) <= n,
    decreases n,
{
    if n == 0 {
    } else {
        lemma_line_start_aux(s, n - 1);
        let prev = line_start_of(s, n - 1);
        lemma_next_nl(s, prev);
        if next_nl(s, prev) < s.len() {
            assert(count_nl(s, next_nl(s, prev) + 1) == count_nl(s, prev) + 1);
        } else {
            assert(count_nl(s, line_start_of(s, n)) == count_nl(s, prev));
        }
    }
}

/// Counting newlines in a prefix never exceeds the prefix length.
pub proof fn lemma_count_nl_le(s: Seq<u8>, i: int)
    requires
        0 <= i,
    ensures
        count_nl(s, i) <= i,
    decreases i,
{
    if i > 0 {
        lemma_count_nl_le(s, i - 1);
    }
}

/// A line start with exactly `n` preceding newlines is the start of line `n`:
/// line starts are uniquely determined by their newline count.
pub proof fn lemma_line_start_unique(s: Seq<u8>, o: int, n: int)
    requires
        is_line_start(s, o),
        count_nl(s, o) == n,
        0 <= n < total_lines_of(s),
    ensures
        o == line_start_of(s, n),
{
    lemma_line_start(s, n);
    let st = line_start_of(s, n);
    if o == s.len() && s.len() > 0 {
        // a start at the very end exists only after a trailing newline, but
        // then the total equals the newline count and `n` cannot reach it
        assert(is_nl(s[s.len() - 1]));
        assert(count_nl(s, s.len() as int) == n);
    } else if o < st {
        assert(st > 0);
        lemma_count_nl_step_up(s, o, st, st - 1);
    } else if st < o {
        assert(o > 0);
        lemma_count_nl_step_up(s, st, o, o - 1);
    }
}

/// Line starts never move backwards, and always lie within the file.
pub proof fn lemma_line_start_monotone(s: Seq<u8>, n: int)
    requires
        0 <= n,
    ensures
        0 <= line_start_of(s, n) <= line_start_of(s, n + 1) <= s.len(),
{
    lemma_line_start_aux(s, n);
    lemma_next_nl(s, line_start_of(s, n));
}

/// A stretch without newlines that ends at a newline (or at the file's end)
/// pins down `next_nl`.
pub proof fn lemma_next_nl_unique(s: Seq<u8>, o: int, e: int)
    requires
        0 <= o <= e <= s.len(),
        forall|j: int| o <= j < e ==> !is_nl(s[j]),
        e < s.len() ==> is_nl(s[e]),
    ensures
        next_nl(s, o) == e,
    decreases e - o,
{
    if o < e {
        lemma_next_nl_unique(s, o + 1, e);
    }
}

/// A file whose last byte is not a newline has one more line than its newline
/// count, and its last line ends at the file length. (The boundary half of the
/// trailing-newline rule; the other half is the `total_lines_of` definition.)
pub proof fn lemma_no_trailing_newline(s: Seq<u8>)
    requires
        s.len() > 0,
        !is_nl(s[s.len() - 1]),
    ensures
        total_lines_of(s) == count_nl(s, s.len() as int) + 1,
        line_end_of(s, total_lines_of(s) - 1) == s.len(),
{
    let n = total_lines_of(s) - 1;
    lemma_count_nl_monotone(s, 0, s.len() as int);
    lemma_line_start(s, n);
    let st = line_start_of(s, n);
    lemma_next_nl(s, st);
    if next_nl(s, st) < s.len() {
        lemma_count_nl_step_up(s, st, s.len() as int, next_nl(s, st));
        // the count past the newline would exceed the newline total
        lemma_count_nl_monotone(s, next_nl(s, st) + 1, s.len() as int);
    }
}

/// One sparse sample: a line number paired with the byte offset at which that
/// line starts.
pub open spec fn sample_ok(s: Seq<u8>, p: (usize, usize)) -> bool {
    &&& p.1 <= s.len()
    &&& is_line_start(s, p.1 as int)
    &&& count_nl(s, p.1 as int) == p.0
}

/// A sparse table of `(line_number, byte_offset)` samples over a file's bytes,
/// one sample roughly every `period` lines, plus the total line count. The
/// table answers offset-to-line and line-to-byte-range queries by binary
/// search over the samples followed by a short forward scan of the mapping.
pub struct LineIndexer {
    samples: Vec<(usize, usize)>,
    total_lines: usize,
    file_len: usize,
    period: usize,
}

impl LineIndexer {
    /// The line total the table was built with.
    pub closed spec fn spec_total(&self) -> int {
        self.total_lines as int
    }

    /// The sampling period the table was built with.
    pub closed spec fn spec_period(&self) -> int {
        self.period as int
    }

    /// The table is a faithful sparse index of the byte sequence `s`: the
    /// sample offsets are strictly increasing line starts beginning at
    /// `(0, 0)`, each sample's line number counts the newlines before its
    /// offset, and the recorded total follows the trailing-newline rule.
    pub closed spec fn wf(&self, s: Seq<u8>) -> bool {
        &&& self.file_len == s.len()
        &&& self.total_lines as int == total_lines_of(s)
        &&& self.period >= 1
        &&& self.samples@.len() >= 1
        &&& self.samples@[0] == (0usize, 0usize)
        &&& forall|k: int| 0 <= k < self.samples@.len() ==> sample_ok(s, #[trigger] self.samples@[k])
        &&& forall|k1: int, k2: int|
            0 <= k1 < k2 < self.samples@.len() ==> (#[trigger] self.samples@[k1]).0
                < (#[trigger] self.samples@[k2]).0 && self.samples@[k1].1 < self.samples@[k2].1
    }

    /// An empty table with the default sampling period of 1024 lines.
    pub fn new() -> (r: LineIndexer)
        ensures
            r.spec_period() == 1024,
    {
        LineIndexer { samples: Vec::new(), total_lines: 0, file_len: 0, period: 1024 }
    }

    /// An empty table with the given sampling period.
    pub fn with_period(period: usize) -> (r: LineIndexer)
        requires
            period >= 1,
        ensures
            r.spec_period() == period,
    {
        LineIndexer { samples: Vec::new(), total_lines: 0, file_len: 0, period }
    }

    /// The total number of lines found by the last build.
    pub fn total_lines(&self) -> (r: usize)
        ensures
            r as int == self.spec_total(),
    {
        self.total_lines
    }

    /// Build the sparse table over the reader's bytes: scan the mapping, and
    /// every `period` newlines record the next line's number and start offset.
    pub fn index_file(&mut self, reader: &FileReader)
        requires
            old(self).spec_period() >= 1,
        ensures
            final(self).wf(reader@),
            final(self).spec_total() == total_lines_of(reader@),
            final(self).spec_period() == old(self).spec_period(),
    {
        let ghost s: Seq<u8> = reader@;
        let data = reader.all_data();
        let flen = data.len();
        let period = self.period;
        let mut samples: Vec<(usize, usize)> = Vec::new();
        samples.push((0, 0));
        let mut line: usize = 0;
        let mut since: usize = 0;
        let mut i: usize = 0;
        while i < flen
            invariant
                data@ == s,
                flen == s.len(),
                i <= flen,
                period >= 1,
                line as int == count_nl(s, i as int),
                since < period,
                samples@.len() >= 1,
                samples@[0] == (0usize, 0usize),
                line as int == samples@.last().0 + since,
                samples@.last().1 <= i,
                forall|k: int| 0 <= k < samples@.len() ==> sample_ok(s, #[trigger] samples@[k]),
                forall|k1: int, k2: int|
                    0 <= k1 < k2 < samples@.len() ==> (#[trigger] samples@[k1]).0
                        < (#[trigger] samples@[k2]).0 && samples@[k1].1 < samples@[k2].1,
            decreases flen - i,
        {
            proof {
                lemma_count_nl_le(s, i + 1);
            }
            if data[i] == 10 {
                line = line + 1;
                since = since + 1;
                if since == period {
                    let ghost prev = samples@;
                    samples.push((line, i + 1));
                    since = 0;
                    proof {
                        assert(samples@.last().0 == line && samples@.last().1 == i + 1);
                        assert(forall|k: int|
                            0 <= k < prev.len() ==> samples@[k] == #[trigger] prev[k]);
                    }
                }
            }
            i = i + 1;
        }
        let total: usize = if flen == 0 {
            1
        } else if data[flen - 1] == 10 {
            line
        } else {
            proof {
                lemma_count_nl_le(s, flen - 1 as int);
                assert(count_nl(s, flen as int) == count_nl(s, flen - 1 as int));
            }
            line + 1
        };
        self.samples = samples;
        self.total_lines = total;
        self.file_len = flen;
    }

    /// The 0-based number of the line containing the given byte offset
    /// (offsets at or past the end answer for the end): binary-search the
    /// samples for the last one at or before the offset, then count newlines
    /// forward through the mapping.
    pub fn line_at_offset(&self, reader: &FileReader, offset: usize) -> (r: usize)
        requires
            self.wf(reader@),
        ensures
            r as int == line_of(
                reader@,
                if offset as int <= reader@.len() {
                    offset as int
                } else {
                    reader@.len() as int
                },
            ),
            offset < reader@.len() ==> (r as int) < total_lines_of(reader@),
    {
        let ghost s: Seq<u8> = reader@;
        let data = reader.all_data();
        let flen = data.len();
        let target = if offset <= flen {
            offset
        } else {
            flen
        };
        let n_samples = self.samples.len();
        let mut lo: usize = 0;
        let mut hi: usize = n_samples;
        while hi - lo > 1
            invariant
                self.wf(s),
                n_samples == self.samples@.len(),
                lo < hi <= n_samples,
                self.samples@[lo as int].1 <= target,
                hi < n_samples ==> self.samples@[hi as int].1 > target,
            decreases hi - lo,
        {
            let mid = lo + (hi - lo) / 2;
            if self.samples[mid].1 <= target {
                lo = mid;
            } else {
                hi = mid;
            }
        }
        let (mut line, mut pos) = self.samples[lo];
        while pos < target
            invariant
                self.wf(s),
                data@ == s,
                flen == s.len(),
                target <= flen,
                pos <= target,
                line as int == count_nl(s, pos as int),
            decreases target - pos,
        {
            proof {
                lemma_count_nl_le(s, pos + 1 as int);
            }
            if data[pos] == 10 {
                line = line + 1;
            }
            pos = pos + 1;
        }
        proof {
            if offset < s.len() {
                lemma_offset_in_line_range(s, offset as int);
            }
        }
        line
    }

    /// The byte range `[start, end)` of line `n`, or `None` when `n` is not
    /// below the total: binary-search the samples for the nearest line start
    /// at or before `n`, walk newline-by-newline to line `n`, then scan to its
    /// end. The range always ends just past a newline, except for a last line
    /// without one, which ends at the file length.
    pub fn line_range(&self, reader: &FileReader, n: usize) -> (r: Option<(usize, usize)>)
        requires
            self.wf(reader@),
        ensures
            r is Some <==> (n as int) < total_lines_of(reader@),
            r matches Some((st, en)) ==> {
                &&& st as int == line_start_of(reader@, n as int)
                &&& en as int == line_end_of(reader@, n as int)
                &&& st <= en <= reader@.len()
                &&& reader@.len() > 0 ==> st < en
                &&& en == reader@.len() || is_nl(reader@[en - 1])
            },
    {
        let ghost s: Seq<u8> = reader@;
        if n >= self.total_lines {
            return None;
        }
        let data = reader.all_data();
        let flen = data.len();
        let n_samples = self.samples.len();
        let mut lo: usize = 0;
        let mut hi: usize = n_samples;
        while hi - lo > 1
            invariant
                self.wf(s),
                n_samples == self.samples@.len(),
                lo < hi <= n_samples,
                self.samples@[lo as int].0 <= n,
                hi < n_samples ==> self.samples@[hi as int].0 > n,
            decreases hi - lo,
        {
            let mid = lo + (hi - lo) / 2;
            if self.samples[mid].0 <= n {
                lo = mid;
            } else {
                hi = mid;
            }
        }
        let (mut line, mut pos) = self.samples[lo];
        proof {
            lemma_count_nl_monotone(s, 0, s.len() as int);
        }
        while line < n
            invariant
                self.wf(s),
                data@ == s,
                flen == s.len(),
                line <= n,
                (n as int) < total_lines_of(s),
                pos <= flen,
                is_line_start(s, pos as int),
                line as int == count_nl(s, pos as int),
            decreases n - line,
        {
            // hop to the start of the next line: skip to the newline, then past it
            let ghost start0 = pos as int;
            while pos < flen && data[pos] != 10
                invariant
                    data@ == s,
                    flen == s.len(),
                    start0 <= pos <= flen,
                    forall|j: int| start0 <= j < pos ==> !is_nl(s[j]),
                decreases flen - pos,
            {
                pos = pos + 1;
            }
            proof {
                // a newline must lie ahead: line `n` exists beyond `line`
                assert(count_nl(s, pos as int) == line as int) by {
                    lemma_next_nl_unique(s, start0, pos as int);
                    lemma_next_nl(s, start0);
                }
                if pos == flen {
                    assert(count_nl(s, s.len() as int) >= n as int) by {
                        if s.len() > 0 && is_nl(s[s.len() - 1]) {
                        }
                    }
                    assert(false);
                }
                lemma_count_nl_le(s, pos + 1 as int);
            }
            pos = pos + 1;
            line = line + 1;
        }
        proof {
            lemma_line_start_unique(s, pos as int, n as int);
        }
        // scan to the end of line `n`
        let start = pos;
        let mut e = pos;
        while e < flen && data[e] != 10
            invariant
                data@ == s,
                flen == s.len(),
                start <= e <= flen,
                forall|j: int| start as int <= j < e ==> !is_nl(s[j]),
            decreases flen - e,
        {
            e = e + 1;
        }
        proof {
            lemma_next_nl_unique(s, start as int, e as int);
            lemma_line_start(s, n as int);
        }
        let end = if e < flen {
            e + 1
        } else {
            flen
        };
        Some((start, end))
    }
}

} // verus!


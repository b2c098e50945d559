use vstd::prelude::*;

verus! {

use crate::errors::CoreError;
use vstd::string::{StringExecFns, StrSliceExecFns};
use vstd::utf8::encode_utf8;

/// Buffer size of the streaming rewrite's working window.
pub const REWRITE_BUFFER_SIZE: usize = 1024 * 1024;

/// Overlap held back at a window's end so that a match beginning near the end
/// is re-examined once the window has moved; it must exceed the longest match
/// the pattern is expected to make.
pub const REWRITE_OVERLAP: usize = 4096;

/// What a rewrite worker reports to the consumer: processed and total byte
/// counts, completion, or failure.
pub enum ReplaceMessage {
    Progress(usize, usize),
    Done,
    Error(String),
}

/// A byte is a UTF-8 code-point boundary when it is not a continuation byte,
/// that is, when its top two bits are not `10`.
pub open spec fn spec_is_utf8_char_boundary(b: u8) -> bool {
    b < 0x80 || b >= 0xC0
}

/// True when `b` can begin a UTF-8 encoded code point (it is not a
/// continuation byte).
pub fn is_utf8_char_boundary(b: u8) -> (r: bool)
    ensures
        r == spec_is_utf8_char_boundary(b),
{
    b < 0x80 || b >= 0xC0
}

/// How many bytes a UTF-8 code point beginning with this byte occupies, or 0
/// when the byte cannot begin one.
pub open spec fn spec_lead_width(b: u8) -> int {
    if b < 0x80 {
        1
    } else if 0xC0 <= b && b <= 0xDF {
        2
    } else if 0xE0 <= b && b <= 0xEF {
        3
    } else if 0xF0 <= b && b <= 0xF7 {
        4
    } else {
        0
    }
}

/// The position at or before `k` that skips back over at most `fuel` trailing
/// continuation bytes.
pub open spec fn spec_skip_continuations(b: Seq<u8>, k: int, fuel: int) -> int
    decreases fuel,
{
    if fuel <= 0 || k <= 0 || spec_is_utf8_char_boundary(b[k - 1]) {
        k
    } else {
        spec_skip_continuations(b, k - 1, fuel - 1)
    }
}

/// The length of the buffer's longest prefix that does not split a UTF-8 code
/// point at its end: when the buffer ends inside a code point whose leading
/// byte promises more bytes than the buffer holds, the cut falls before that
/// leading byte; a buffer whose tail is not decodable UTF-8 at all is kept
/// whole.
pub open spec fn spec_trim(b: Seq<u8>) -> int {
    let n = b.len() as int;
    let k = spec_skip_continuations(b, n, 3);
    if k <= 0 {
        n
    } else if !spec_is_utf8_char_boundary(b[k - 1]) {
        n
    } else {
        let w = spec_lead_width(b[k - 1]);
        if w == 0 {
            n
        } else if k - 1 + w > n {
            k - 1
        } else {
            n
        }
    }
}

/// Trim a working buffer back to the last UTF-8 code-point boundary, so that
/// a code point begun near the end and continued in bytes not yet read is not
/// split. Keeps the whole buffer when nothing decodable hangs over the end.
pub fn trim_to_boundary(b: &[u8]) -> (r: usize)
    ensures
        r as int == spec_trim(b@),
        r <= b@.len(),
{
    let n = b.len();
    let mut k = n;
    let mut fuel: usize = 3;
    while fuel > 0 && k > 0 && !is_utf8_char_boundary(b[k - 1])
        invariant
            k <= n == b@.len(),
            fuel <= 3,
            spec_skip_continuations(b@, n as int, 3) == spec_skip_continuations(
                b@,
                k as int,
                fuel as int,
            ),
        decreases fuel,
    {
        k = k - 1;
        fuel = fuel - 1;
    }
    if k == 0 {
        return n;
    }
    let lead = b[k - 1];
    if !is_utf8_char_boundary(lead) {
        return n;
    }
    let w: usize = if lead < 0x80 {
        1
    } else if lead <= 0xDF {
        2
    } else if lead <= 0xEF {
        3
    } else if lead <= 0xF7 {
        4
    } else {
        0
    };
    if w == 0 {
        n
    } else if w > n - (k - 1) {
        k - 1
    } else {
        n
    }
}

/// The spliced contents: the prefix before the edit, the replacement bytes,
/// then everything that followed the replaced range.
pub open spec fn spec_splice(s: Seq<u8>, offset: int, old_len: int, new_text: Seq<u8>) -> Seq<u8> {
    s.subrange(0, offset) + new_text + s.subrange(offset + old_len, s.len() as int)
}

/// Append `src[from..to]` to a byte vector.
pub(crate) fn append_range(out: &mut Vec<u8>, src: &[u8], from: usize, to: usize)
    requires
        from <= to <= src@.len(),
    ensures
        final(out)@ == old(out)@ + src@.subrange(from as int, to as int),
{
    let mut i = from;
    while i < to
        invariant
            from <= i <= to <= src@.len(),
            out@ == old(out)@ + src@.subrange(from as int, i as int),
        decreases to - i,
    {
        out.push(src[i]);
        proof {
            assert(src@.subrange(from as int, i + 1int) =~= src@.subrange(from as int, i as int)
                + seq![src@[i as int]]);
        }
        i = i + 1;
    }
    proof {
        assert(out@ =~= old(out)@ + src@.subrange(from as int, to as int));
    }
}

/// A streaming, boundary-correct pattern rewriter, with a pointwise splice
/// primitive for small in-place edits.
pub struct Replacer;

impl Replacer {
    /// Replace the byte range `[offset, offset + old_len)` of a file's
    /// contents with the given text: the pointwise splice primitive. The
    /// length changes by exactly the difference of the two lengths, and every
    /// byte outside the replaced range keeps its value, shifted as the length
    /// change demands. For a batch of pending edits, apply them in decreasing
    /// order of offset, so that the offsets of edits not yet applied stay
    /// valid.
    pub fn splice(content: &[u8], offset: usize, old_len: usize, new_text: &[u8]) -> (r: Vec<u8>)
        requires
            offset + old_len <= content@.len(),
            content@.len() - old_len + new_text@.len() <= usize::MAX,
        ensures
            r@ == spec_splice(content@, offset as int, old_len as int, new_text@),
            r@.len() == content@.len() - old_len + new_text@.len(),
            forall|i: int| 0 <= i < offset ==> r@[i] == content@[i],
            forall|i: int|
                offset + old_len <= i < content@.len() ==> r@[i - old_len + new_text@.len()]
                    == content@[i],
    {
        let clen = content.len();
        let mut r: Vec<u8> = Vec::new();
        append_range(&mut r, content, 0, offset);
        append_range(&mut r, new_text, 0, new_text.len());
        append_range(&mut r, content, offset + old_len, clen);
        proof {
            assert(r@ =~= spec_splice(content@, offset as int, old_len as int, new_text@));
        }
        r
    }
}

/// What one window writes to the output: for each match starting before the
/// safe-zone end, the bytes since the previous write cursor and then the
/// expanded replacement; after the last such match, the bytes up to the
/// safe-zone end — unless the last match crossed it, in which case nothing
/// more, since the replacement already covered those bytes.
pub open spec fn spec_window_output(
    w: Seq<u8>,
    ms: Seq<(int, int, Seq<u8>)>,
    cursor: int,
    sz: int,
) -> Seq<u8>
    decreases ms.len(),
{
    if ms.len() == 0 || ms[0].0 >= sz {
        if cursor <= sz {
            w.subrange(cursor, sz)
        } else {
            Seq::empty()
        }
    } else {
        w.subrange(cursor, ms[0].0) + ms[0].2 + spec_window_output(w, ms.drop_first(), ms[0].1, sz)
    }
}

/// Where the unwritten tail of a window begins: the safe-zone end, or the end
/// of the last replaced match when that match crossed the safe zone.
pub open spec fn spec_shift_start(ms: Seq<(int, int, Seq<u8>)>, cursor: int, sz: int) -> int
    decreases ms.len(),
{
    if ms.len() == 0 || ms[0].0 >= sz {
        if cursor > sz {
            cursor
        } else {
            sz
        }
    } else {
        spec_shift_start(ms.drop_first(), ms[0].1, sz)
    }
}

/// Process one working window: replace every match of the byte pattern that
/// starts inside the safe zone `[0, sz)`, writing replaced spans through the
/// expanded template and everything else verbatim up to the safe-zone end.
/// Returns the bytes to write and the window-relative offset at which the
/// unwritten tail begins.
pub fn process_window(
    re: &regex::bytes::Regex,
    window: &[u8],
    template: &[u8],
    sz: usize,
) -> (r: (Vec<u8>, usize))
    requires
        sz <= window@.len(),
    ensures
        ({
            let ms = crate::pattern::bytes_expansions(
                crate::pattern::bytes_pattern(*re),
                template@,
                window@,
            );
            &&& r.0@ == spec_window_output(window@, ms, 0, sz as int)
            &&& r.1 as int == spec_shift_start(ms, 0, sz as int)
            &&& sz <= r.1 <= window@.len()
        }),
{
    let ms = crate::pattern::bytes_find_expand(re, window, template);
    let ghost msv = crate::pattern::bytes_expansions(
        crate::pattern::bytes_pattern(*re),
        template@,
        window@,
    );
    let mut out: Vec<u8> = Vec::new();
    let mut cursor: usize = 0;
    let mut i: usize = 0;
    proof {
        assert(msv.skip(0) =~= msv);
    }
    while i < ms.len() && ms[i].0 < sz
        invariant
            crate::pattern::find_expand_post(ms@, msv, window@.len() as int),
            sz <= window@.len(),
            i <= ms@.len(),
            cursor <= window@.len(),
            i < ms@.len() ==> cursor <= msv[i as int].0,
            i > 0 ==> cursor == msv[i - 1].1,
            spec_window_output(window@, msv, 0, sz as int) == out@ + spec_window_output(
                window@,
                msv.skip(i as int),
                cursor as int,
                sz as int,
            ),
            spec_shift_start(msv, 0, sz as int) == spec_shift_start(
                msv.skip(i as int),
                cursor as int,
                sz as int,
            ),
        decreases ms@.len() - i,
    {
        proof {
            assert(msv.skip(i as int).drop_first() =~= msv.skip(i + 1int));
            assert(msv.skip(i as int)[0] == msv[i as int]);
        }
        let m0 = ms[i].0;
        let m1 = ms[i].1;
        let ghost out0 = out@;
        append_range(&mut out, window, cursor, m0);
        let expansion: &Vec<u8> = &ms[i].2;
        append_range(&mut out, expansion.as_slice(), 0, expansion.len());
        proof {
            assert(expansion@.subrange(0, expansion@.len() as int) =~= msv[i as int].2);
            assert(out@ =~= out0 + (window@.subrange(cursor as int, m0 as int) + msv[i as int].2));
        }
        cursor = m1;
        i = i + 1;
    }
    // past the loop: either no matches remain, or the next match starts at or
    // beyond the safe zone — both end the window's spec
    proof {
        if i < ms@.len() {
            assert(msv.skip(i as int)[0] == msv[i as int]);
        } else {
            assert(msv.skip(i as int) =~= Seq::<(int, int, Seq<u8>)>::empty());
        }
    }
    if cursor <= sz {
        append_range(&mut out, window, cursor, sz);
        (out, sz)
    } else {
        proof {
            assert(spec_window_output(window@, msv.skip(i as int), cursor as int, sz as int)
                =~= Seq::<u8>::empty());
        }
        (out, cursor)
    }
}

/// The pattern a rewrite compiles: the query itself when it is a regex, else
/// the escaped literal made case-insensitive.
pub open spec fn rewrite_pattern(q: Seq<char>, use_regex: bool) -> Seq<char> {
    if use_regex {
        q
    } else {
        "(?i)"@ + crate::pattern::escaped(q)
    }
}

/// The bytes the whole windowed rewrite writes, given the working buffer, the
/// input not yet read, and whether the input has ended: each round trims the
/// buffer to a code-point boundary (except at the end of input), rewrites the
/// safe zone, carries the tail over, and refills the buffer from the input.
pub open spec fn spec_rewrite_loop(
    pat: Seq<char>,
    tmpl: Seq<u8>,
    buffer: Seq<u8>,
    rest: Seq<u8>,
    eof: bool,
) -> Seq<u8>
    decreases rest.len(), (if eof {
        0int
    } else {
        1int
    }), buffer.len(),
{
    if buffer.len() == 0 {
        Seq::empty()
    } else {
        let valid = if eof {
            buffer.len() as int
        } else {
            spec_trim(buffer)
        };
        let w = buffer.subrange(0, valid);
        let sz = if eof {
            valid
        } else if valid - REWRITE_OVERLAP as int >= 0 {
            valid - REWRITE_OVERLAP as int
        } else {
            0int
        };
        let ms = crate::pattern::bytes_expansions(pat, tmpl, w);
        let out = spec_window_output(w, ms, 0, sz);
        let shift = spec_shift_start(ms, 0, sz);
        let remaining = if 0 <= shift <= buffer.len() {
            buffer.subrange(shift, buffer.len() as int)
        } else {
            Seq::empty()
        };
        if eof {
            out + if 0 < remaining.len() < buffer.len() {
                spec_rewrite_loop(pat, tmpl, remaining, rest, eof)
            } else {
                Seq::empty()
            }
        } else {
            let want = if REWRITE_BUFFER_SIZE as int - remaining.len() >= 0 {
                REWRITE_BUFFER_SIZE as int - remaining.len()
            } else {
                0int
            };
            let read = if want <= rest.len() {
                want
            } else {
                rest.len() as int
            };
            out + spec_rewrite_loop(
                pat,
                tmpl,
                remaining + rest.take(read),
                rest.skip(read),
                read == 0,
            )
        }
    }
}

/// The bytes the rewrite writes for a whole input: the loop begun with one
/// buffer's worth read, at the end of input already when the input is shorter
/// than the buffer.
pub open spec fn spec_rewrite(pat: Seq<char>, tmpl: Seq<u8>, input: Seq<u8>) -> Seq<u8> {
    let read = if REWRITE_BUFFER_SIZE as int <= input.len() {
        REWRITE_BUFFER_SIZE as int
    } else {
        input.len() as int
    };
    spec_rewrite_loop(pat, tmpl, input.take(read), input.skip(read), read < REWRITE_BUFFER_SIZE as int)
}

/// What a whole in-memory rewrite yields: the rewritten bytes, and whether the
/// cancel flag cut the work short (the output is then a prefix of the work).
pub struct RewriteOutcome {
    pub output: Vec<u8>,
    pub cancelled: bool,
}

impl Replacer {
    /// Rewrite a whole input held in memory, replacing every match of the
    /// query — compiled as a byte regex, or as a case-insensitive escaped
    /// literal — with the replacement template, capture references included.
    /// An empty query makes no matches: the input comes back unchanged. The
    /// input is walked in buffer-sized windows with an overlap held back,
    /// exactly as the streaming rewrite walks a file, so matches straddling a
    /// window boundary are replaced once. The cancel flag is read once per
    /// window; a rewrite that saw it raised reports `cancelled`, and its
    /// partial output is a prefix of the full rewrite. Fails only when the
    /// pattern does not compile.
    #[verifier::rlimit(100)]
    pub fn replace_all(
        input: &[u8],
        query: &str,
        replace_with: &str,
        use_regex: bool,
        cancel: &core::sync::atomic::AtomicBool,
    ) -> (r: Result<RewriteOutcome, CoreError>)
        ensures
            query@.len() == 0 ==> (r matches Ok(o) && o.output@ == input@ && !o.cancelled),
            query@.len() > 0 ==> (r is Err <==> !crate::pattern::bytes_pattern_ok(
                rewrite_pattern(query@, use_regex),
            )),
            r matches Err(e) ==> e is InvalidRegex,
            r matches Ok(o) ==> query@.len() > 0 && !o.cancelled ==> o.output@ == spec_rewrite(
                rewrite_pattern(query@, use_regex),
                encode_utf8(replace_with@),
                input@,
            ),
            r matches Ok(o) ==> query@.len() > 0 && o.cancelled ==> o.output@ == spec_rewrite(
                rewrite_pattern(query@, use_regex),
                encode_utf8(replace_with@),
                input@,
            ).take(o.output@.len() as int),
    {
        if query.unicode_len() == 0 {
            let mut copied: Vec<u8> = Vec::new();
            append_range(&mut copied, input, 0, input.len());
            proof {
                assert(copied@ =~= input@);
            }
            return Ok(RewriteOutcome { output: copied, cancelled: false });
        }
        let pattern: String = if use_regex {
            String::from_str(query)
        } else {
            let escaped_q = crate::pattern::regex_escape(query);
            let mut p = String::from_str("(?i)");
            p.append(escaped_q.as_str());
            p
        };
        let re = match crate::pattern::bytes_regex_new(pattern.as_str()) {
            Ok(re) => re,
            Err(m) => {
                return Err(CoreError::InvalidRegex(m));
            },
        };
        let ghost pat: Seq<char> = rewrite_pattern(query@, use_regex);
        let template: &[u8] = replace_with.as_bytes();
        let flen = input.len();
        let mut consumed: usize = if flen > REWRITE_BUFFER_SIZE {
            REWRITE_BUFFER_SIZE
        } else {
            flen
        };
        let mut eof = consumed < REWRITE_BUFFER_SIZE;
        let mut buffer: Vec<u8> = Vec::new();
        append_range(&mut buffer, input, 0, consumed);
        let mut out: Vec<u8> = Vec::new();
        let mut cancelled = false;
        proof {
            assert(buffer@ =~= input@.take(consumed as int));
        }
        while buffer.len() > 0 && !cancelled
            invariant
                crate::pattern::bytes_pattern(re) == pat,
                template@ == encode_utf8(replace_with@),
                consumed <= flen == input@.len(),
                buffer@.len() <= REWRITE_BUFFER_SIZE,
                spec_rewrite(pat, template@, input@) == out@ + spec_rewrite_loop(
                    pat,
                    template@,
                    buffer@,
                    input@.skip(consumed as int),
                    eof,
                ),
            decreases flen - consumed, (if eof {
                0int
            } else {
                1int
            }), buffer@.len(), (if cancelled {
                0int
            } else {
                1int
            }),
        {
            if cancel.load(core::sync::atomic::Ordering::Relaxed) {
                cancelled = true;
            } else {
                let blen = buffer.len();
                let valid = if eof {
                    blen
                } else {
                    trim_to_boundary(buffer.as_slice())
                };
                let sz = if eof {
                    valid
                } else if valid > REWRITE_OVERLAP {
                    valid - REWRITE_OVERLAP
                } else {
                    0
                };
                let window = &buffer.as_slice()[0..valid];
                proof {
                    assert(window@ =~= buffer@.subrange(0, valid as int));
                }
                let (wout, shift) = process_window(&re, window, template, sz);
                append_range(&mut out, wout.as_slice(), 0, wout.len());
                proof {
                    assert(wout@.subrange(0, wout@.len() as int) =~= wout@);
                }
                let mut newbuf: Vec<u8> = Vec::new();
                append_range(&mut newbuf, buffer.as_slice(), shift, blen);
                proof {
                    assert(newbuf@ =~= buffer@.subrange(shift as int, buffer@.len() as int));
                }
                let ghost buffer0 = buffer@;
                let ghost eof0 = eof;
                let ghost consumed0 = consumed as int;
                if !eof {
                    let want = REWRITE_BUFFER_SIZE - newbuf.len();
                    let avail = flen - consumed;
                    let n = if avail > want {
                        want
                    } else {
                        avail
                    };
                    let ghost newbuf0 = newbuf@;
                    append_range(&mut newbuf, input, consumed, consumed + n);
                    proof {
                        assert(input@.subrange(consumed0, consumed0 + n) =~= input@.skip(
                            consumed0,
                        ).take(n as int));
                        assert(newbuf@ =~= newbuf0 + input@.skip(consumed0).take(n as int));
                        assert(input@.skip(consumed0).skip(n as int) =~= input@.skip(
                            consumed0 + n,
                        ));
                    }
                    consumed = consumed + n;
                    if n == 0 {
                        eof = true;
                    }
                }
                buffer = newbuf;
                proof {
                    if eof0 {
                        assert(buffer@.len() == 0);
                        assert(spec_rewrite_loop(pat, template@, buffer0, input@.skip(consumed0), eof0)
                            == wout@);
                    } else {
                        assert(spec_rewrite_loop(pat, template@, buffer0, input@.skip(consumed0), eof0)
                            == wout@ + spec_rewrite_loop(
                            pat,
                            template@,
                            buffer@,
                            input@.skip(consumed as int),
                            eof,
                        ));
                    }
                }
            }
        }
        proof {
            // whatever the cancel flag said, the bytes written so far are a
            // prefix of the whole rewrite
            assert(spec_rewrite(pat, template@, input@).take(out@.len() as int) =~= out@);
        }
        Ok(RewriteOutcome { output: out, cancelled })
    }
}

} // verus!

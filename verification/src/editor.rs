use vstd::prelude::*;

verus! {

use vstd::string::StrSliceExecFns;
use vstd::utf8::encode_utf8;
use crate::encoding::{utf8_lossy, utf8_lossy_to_string};
use crate::errors::CoreError;
use crate::file_handler::{FileHandler, probe_line};
use crate::find::{
    occ_positions_from,
    spec_replace_occ,
    count_occurrences,
    replace_occurrences,
};
use crate::pattern::{
    lower_of,
    to_lowercase,
    regex_pattern,
    pattern_ok,
    regex_matches,
    regex_new,
    regex_find_all,
    regex_replace_all,
    regex_replaced,
};
use crate::search::{byte_len, total_lines_of_handler};
use crate::search_engine::cap_usize;

/// A line after literal replacement: every non-overlapping occurrence of the
/// search text — located in the line itself, or in its lowercasing when case
/// does not matter — replaced by the replacement text, decoded leniently.
pub open spec fn literal_replaced_line(
    line: Seq<char>,
    search: Seq<char>,
    repl: Seq<char>,
    case_sensitive: bool,
) -> Seq<char> {
    if case_sensitive {
        utf8_lossy(
            spec_replace_occ(
                encode_utf8(line),
                encode_utf8(line),
                encode_utf8(search),
                encode_utf8(repl),
                byte_len(search),
                0,
                0,
            ),
        )
    } else {
        utf8_lossy(
            spec_replace_occ(
                encode_utf8(line),
                encode_utf8(lower_of(line)),
                encode_utf8(lower_of(search)),
                encode_utf8(repl),
                byte_len(search),
                0,
                0,
            ),
        )
    }
}

/// How many occurrences a literal replacement rewrites in one line.
pub open spec fn literal_line_count(line: Seq<char>, search: Seq<char>, case_sensitive: bool) -> int {
    if case_sensitive {
        occ_positions_from(encode_utf8(line), encode_utf8(search), 0).len() as int
    } else {
        occ_positions_from(encode_utf8(lower_of(line)), encode_utf8(lower_of(search)), 0).len() as int
    }
}

/// Every line of the file after a literal replacement, in order.
pub open spec fn literal_replaced_lines(
    h: FileHandler,
    search: Seq<char>,
    repl: Seq<char>,
    case_sensitive: bool,
    n: int,
    total: int,
) -> Seq<Seq<char>>
    decreases total - n,
{
    if !(0 <= n < total) {
        Seq::empty()
    } else {
        match probe_line(h, n as usize) {
            Some(line) => seq![literal_replaced_line(line, search, repl, case_sensitive)]
                + literal_replaced_lines(h, search, repl, case_sensitive, n + 1, total),
            None => literal_replaced_lines(h, search, repl, case_sensitive, n + 1, total),
        }
    }
}

/// The total occurrence count of a literal replacement over the whole file.
pub open spec fn literal_total_count(
    h: FileHandler,
    search: Seq<char>,
    case_sensitive: bool,
    n: int,
    total: int,
) -> int
    decreases total - n,
{
    if !(0 <= n < total) {
        0
    } else {
        match probe_line(h, n as usize) {
            Some(line) => literal_line_count(line, search, case_sensitive) + literal_total_count(
                h,
                search,
                case_sensitive,
                n + 1,
                total,
            ),
            None => literal_total_count(h, search, case_sensitive, n + 1, total),
        }
    }
}

/// A line after regex replacement: left as it stands when the pattern does
/// not match it, else rewritten by the regex engine with the template.
pub open spec fn regex_replaced_line(line: Seq<char>, pat: Seq<char>, tmpl: Seq<char>) -> Seq<
    char,
> {
    if regex_matches(pat, encode_utf8(line)).len() > 0 {
        regex_replaced(pat, tmpl, line)
    } else {
        line
    }
}

/// Every line of the file after a regex replacement, in order.
pub open spec fn regex_replaced_lines(
    h: FileHandler,
    pat: Seq<char>,
    tmpl: Seq<char>,
    n: int,
    total: int,
) -> Seq<Seq<char>>
    decreases total - n,
{
    if !(0 <= n < total) {
        Seq::empty()
    } else {
        match probe_line(h, n as usize) {
            Some(line) => seq![regex_replaced_line(line, pat, tmpl)] + regex_replaced_lines(
                h,
                pat,
                tmpl,
                n + 1,
                total,
            ),
            None => regex_replaced_lines(h, pat, tmpl, n + 1, total),
        }
    }
}

/// The total match count of a regex replacement over the whole file.
pub open spec fn regex_total_count(h: FileHandler, pat: Seq<char>, n: int, total: int) -> int
    decreases total - n,
{
    if !(0 <= n < total) {
        0
    } else {
        match probe_line(h, n as usize) {
            Some(line) => regex_matches(pat, encode_utf8(line)).len() + regex_total_count(
                h,
                pat,
                n + 1,
                total,
            ),
            None => regex_total_count(h, pat, n + 1, total),
        }
    }
}

/// The lines `[n, total)` of the handler, each followed by a newline byte —
/// the contents a line-based save writes out.
pub open spec fn joined_lines(h: FileHandler, n: int, total: int) -> Seq<u8>
    decreases total - n,
{
    if !(0 <= n < total) {
        Seq::empty()
    } else {
        match probe_line(h, n as usize) {
            Some(line) => encode_utf8(line) + seq![10u8] + joined_lines(h, n + 1, total),
            None => joined_lines(h, n + 1, total),
        }
    }
}

/// The executable lines render the spec lines.
pub open spec fn lines_agree(v: Seq<String>, ls: Seq<Seq<char>>) -> bool {
    v.len() == ls.len() && forall|i: int| 0 <= i < v.len() ==> (#[trigger] v[i])@ == ls[i]
}

/// What a whole-file replacement produces: every line after replacement, and
/// the number of occurrences replaced (capped at what a `usize` holds).
pub struct EditOutcome {
    pub lines: Vec<String>,
    pub replacements: usize,
}

/// Line-by-line replacement over an indexed file, and the staging of
/// in-memory line edits.
pub struct Editor {
    file_handler: FileHandler,
    chunk_size: usize,
}

impl Editor {
    /// The handler whose lines are edited.
    pub closed spec fn spec_handler(&self) -> FileHandler {
        self.file_handler
    }

    pub open spec fn wf(&self) -> bool {
        self.spec_handler().wf()
    }

    /// An editor over the given file, with the default batching size.
    pub fn new(file_handler: FileHandler) -> (r: Editor)
        requires
            file_handler.wf(),
        ensures
            r.wf(),
            r.spec_handler() == file_handler,
    {
        Editor { file_handler, chunk_size: 1000 }
    }

    /// An editor with a chosen batching size. The size only shapes how work
    /// would be divided; every replacement visits each line exactly once.
    pub fn with_chunk_size(file_handler: FileHandler, chunk_size: usize) -> (r: Editor)
        requires
            file_handler.wf(),
        ensures
            r.wf(),
            r.spec_handler() == file_handler,
    {
        Editor { file_handler, chunk_size }
    }

    /// The handler the editor works over.
    pub fn file_handler(&self) -> (r: &FileHandler)
        ensures
            *r == self.spec_handler(),
    {
        &self.file_handler
    }

    /// Replace throughout the file. A case-sensitive search text is tried as
    /// a regex first: one that compiles replaces as a regex, any other as a
    /// case-sensitive literal. When case does not matter, or when the search
    /// text is empty, the replacement is the literal one, honoring the case
    /// flag — an empty search text then replaces nothing. Yields the rewritten
    /// lines and the occurrence count; the caller persists them.
    pub fn replace_all(&self, search: &str, replace: &str, case_sensitive: bool) -> (r: Result<
        EditOutcome,
        CoreError,
    >)
        requires
            self.wf(),
        ensures
            r matches Ok(o) ==> {
                let h = self.spec_handler();
                let total = total_lines_of_handler(h);
                if case_sensitive && search@.len() > 0 && pattern_ok(search@) {
                    lines_agree(o.lines@, regex_replaced_lines(h, search@, replace@, 0, total))
                        && o.replacements as int == cap_usize(
                        regex_total_count(h, search@, 0, total),
                    )
                } else {
                    lines_agree(
                        o.lines@,
                        literal_replaced_lines(h, search@, replace@, case_sensitive, 0, total),
                    ) && o.replacements as int == cap_usize(
                        literal_total_count(h, search@, case_sensitive, 0, total),
                    )
                }
            },
            r is Ok,
    {
        if !case_sensitive || search.unicode_len() == 0 {
            return self.replace_all_literal(search, replace, case_sensitive);
        }
        match regex_new(search) {
            Some(re) => self.replace_all_regex(&re, replace),
            None => self.replace_all_literal(search, replace, case_sensitive),
        }
    }

    /// Replace every non-overlapping occurrence of a literal search text, line
    /// by line; when case does not matter, occurrences are located in each
    /// line's lowercasing and the replaced span advances by the search text's
    /// own byte length.
    pub fn replace_all_literal(&self, search: &str, replace: &str, case_sensitive: bool) -> (r:
        Result<EditOutcome, CoreError>)
        requires
            self.wf(),
        ensures
            r matches Ok(o) ==> {
                let h = self.spec_handler();
                let total = total_lines_of_handler(h);
                lines_agree(
                    o.lines@,
                    literal_replaced_lines(h, search@, replace@, case_sensitive, 0, total),
                ) && o.replacements as int == cap_usize(
                    literal_total_count(h, search@, case_sensitive, 0, total),
                )
            },
            r is Ok,
    {
        let ghost h = self.spec_handler();
        let total = self.file_handler.total_lines();
        let ghost gtotal = total as int;
        let search_cmp: String = if case_sensitive {
            String::from_str(search)
        } else {
            to_lowercase(search)
        };
        let step = search.len();
        let mut lines: Vec<String> = Vec::new();
        let mut count: usize = 0;
        let ghost mut done: int = 0;
        let mut n: usize = 0;
        proof {
            assert(Seq::<Seq<char>>::empty() + literal_replaced_lines(
                h,
                search@,
                replace@,
                case_sensitive,
                0,
                gtotal,
            ) =~= literal_replaced_lines(h, search@, replace@, case_sensitive, 0, gtotal));
        }
        while n < total
            invariant
                self.wf(),
                h == self.spec_handler(),
                gtotal == total as int,
                gtotal == total_lines_of_handler(h),
                n <= total,
                step as int == byte_len(search@),
                case_sensitive ==> search_cmp@ == search@,
                !case_sensitive ==> search_cmp@ == lower_of(search@),
                literal_replaced_lines(h, search@, replace@, case_sensitive, 0, gtotal)
                    == lines@.map_values(|l: String| l@) + literal_replaced_lines(
                    h,
                    search@,
                    replace@,
                    case_sensitive,
                    n as int,
                    gtotal,
                ),
                done + literal_total_count(h, search@, case_sensitive, n as int, gtotal)
                    == literal_total_count(h, search@, case_sensitive, 0, gtotal),
                count as int == cap_usize(done),
                0 <= done,
            decreases total - n,
        {
            let line = match self.file_handler.get_line(n) {
                Some(line) => line,
                None => {
                    proof {
                        assert(false);
                    }
                    String::new()
                },
            };
            let (new_line, line_count): (String, usize) = if case_sensitive {
                let c = count_occurrences(line.as_str().as_bytes(), search_cmp.as_str().as_bytes());
                let replaced = replace_occurrences(
                    line.as_str().as_bytes(),
                    line.as_str().as_bytes(),
                    search_cmp.as_str().as_bytes(),
                    replace.as_bytes(),
                    step,
                );
                (utf8_lossy_to_string(replaced.as_slice()), c)
            } else {
                let lowered = to_lowercase(line.as_str());
                let c = count_occurrences(lowered.as_str().as_bytes(), search_cmp.as_str().as_bytes());
                let replaced = replace_occurrences(
                    line.as_str().as_bytes(),
                    lowered.as_str().as_bytes(),
                    search_cmp.as_str().as_bytes(),
                    replace.as_bytes(),
                    step,
                );
                (utf8_lossy_to_string(replaced.as_slice()), c)
            };
            let ghost lines0 = lines@;
            lines.push(new_line);
            proof {
                assert(lines@.map_values(|l: String| l@) =~= lines0.map_values(|l: String| l@)
                    + seq![literal_replaced_line(probe_line(h, n).unwrap(), search@, replace@, case_sensitive)]);
                assert(lines0.map_values(|l: String| l@) + (seq![
                    literal_replaced_line(probe_line(h, n).unwrap(), search@, replace@, case_sensitive),
                ] + literal_replaced_lines(h, search@, replace@, case_sensitive, n + 1int, gtotal))
                    =~= lines@.map_values(|l: String| l@) + literal_replaced_lines(
                    h,
                    search@,
                    replace@,
                    case_sensitive,
                    n + 1int,
                    gtotal,
                ));
                done = done + line_count as int;
            }
            if count <= usize::MAX - line_count {
                count = count + line_count;
            } else {
                count = usize::MAX;
            }
            n = n + 1;
        }
        Ok(EditOutcome { lines, replacements: count })
    }

    /// Replace every match of a compiled regex, line by line, expanding
    /// capture references in the replacement template.
    pub fn replace_all_regex(&self, regex: &regex::Regex, replace: &str) -> (r: Result<
        EditOutcome,
        CoreError,
    >)
        requires
            self.wf(),
        ensures
            r matches Ok(o) ==> {
                let h = self.spec_handler();
                let total = total_lines_of_handler(h);
                lines_agree(o.lines@, regex_replaced_lines(h, regex_pattern(*regex), replace@, 0, total))
                    && o.replacements as int == cap_usize(
                    regex_total_count(h, regex_pattern(*regex), 0, total),
                )
            },
            r is Ok,
    {
        let ghost h = self.spec_handler();
        let ghost pat = regex_pattern(*regex);
        let total = self.file_handler.total_lines();
        let ghost gtotal = total as int;
        let mut lines: Vec<String> = Vec::new();
        let mut count: usize = 0;
        let ghost mut done: int = 0;
        let mut n: usize = 0;
        proof {
            assert(Seq::<Seq<char>>::empty() + regex_replaced_lines(h, pat, replace@, 0, gtotal)
                =~= regex_replaced_lines(h, pat, replace@, 0, gtotal));
        }
        while n < total
            invariant
                self.wf(),
                h == self.spec_handler(),
                pat == regex_pattern(*regex),
                gtotal == total as int,
                gtotal == total_lines_of_handler(h),
                n <= total,
                regex_replaced_lines(h, pat, replace@, 0, gtotal) == lines@.map_values(
                    |l: String| l@,
                ) + regex_replaced_lines(h, pat, replace@, n as int, gtotal),
                done + regex_total_count(h, pat, n as int, gtotal) == regex_total_count(
                    h,
                    pat,
                    0,
                    gtotal,
                ),
                count as int == cap_usize(done),
                0 <= done,
            decreases total - n,
        {
            let line = match self.file_handler.get_line(n) {
                Some(line) => line,
                None => {
                    proof {
                        assert(false);
                    }
                    String::new()
                },
            };
            let ms = regex_find_all(regex, line.as_str());
            let line_count = ms.len();
            let new_line: String = if line_count > 0 {
                regex_replace_all(regex, line.as_str(), replace)
            } else {
                line
            };
            let ghost lines0 = lines@;
            lines.push(new_line);
            proof {
                assert(lines@.map_values(|l: String| l@) =~= lines0.map_values(|l: String| l@)
                    + seq![regex_replaced_line(probe_line(h, n).unwrap(), pat, replace@)]);
                assert(lines0.map_values(|l: String| l@) + (seq![
                    regex_replaced_line(probe_line(h, n).unwrap(), pat, replace@),
                ] + regex_replaced_lines(h, pat, replace@, n + 1int, gtotal)) =~= lines@.map_values(
                    |l: String| l@,
                ) + regex_replaced_lines(h, pat, replace@, n + 1int, gtotal));
                done = done + line_count as int;
            }
            if count <= usize::MAX - line_count {
                count = count + line_count;
            } else {
                count = usize::MAX;
            }
            n = n + 1;
        }
        Ok(EditOutcome { lines, replacements: count })
    }

    /// Case-insensitive literal replacement of one text: occurrences are
    /// located in the lowercased text, and each replaced span advances by the
    /// search text's own byte length.
    pub fn replace_case_insensitive(text: &str, search: &str, replace: &str) -> (r: String)
        ensures
            r@ == utf8_lossy(
                spec_replace_occ(
                    encode_utf8(text@),
                    encode_utf8(lower_of(text@)),
                    encode_utf8(lower_of(search@)),
                    encode_utf8(replace@),
                    byte_len(search@),
                    0,
                    0,
                ),
            ),
    {
        let lowered = to_lowercase(text);
        let needle = to_lowercase(search);
        let replaced = replace_occurrences(
            text.as_bytes(),
            lowered.as_str().as_bytes(),
            needle.as_str().as_bytes(),
            replace.as_bytes(),
            search.len(),
        );
        utf8_lossy_to_string(replaced.as_slice())
    }

    /// How many case-insensitive occurrences of the search text the text
    /// holds.
    pub fn count_case_insensitive(text: &str, search: &str) -> (r: usize)
        ensures
            r as int == occ_positions_from(
                encode_utf8(lower_of(text@)),
                encode_utf8(lower_of(search@)),
                0,
            ).len(),
    {
        let lowered = to_lowercase(text);
        let needle = to_lowercase(search);
        count_occurrences(lowered.as_str().as_bytes(), needle.as_str().as_bytes())
    }

    /// Stage a new text for a line, in memory.
    pub fn replace_line(&mut self, line_num: usize, new_content: String) -> (r: Result<
        (),
        CoreError,
    >)
        requires
            old(self).wf(),
        ensures
            final(self).wf(),
            final(self).spec_handler().spec_bytes() == old(self).spec_handler().spec_bytes(),
            final(self).spec_handler().spec_modified() == old(self).spec_handler().spec_modified(
            ).insert(line_num, new_content),
            r is Ok,
    {
        self.file_handler.set_line(line_num, new_content)
    }

    /// The whole file as a save would write it: every line — staged
    /// modifications included — followed by a newline byte.
    pub fn modified_content(&self) -> (r: Vec<u8>)
        requires
            self.wf(),
        ensures
            r@ == joined_lines(self.spec_handler(), 0, total_lines_of_handler(self.spec_handler())),
    {
        let ghost h = self.spec_handler();
        let total = self.file_handler.total_lines();
        let ghost gtotal = total as int;
        let mut out: Vec<u8> = Vec::new();
        let mut n: usize = 0;
        proof {
            assert(Seq::<u8>::empty() + joined_lines(h, 0, gtotal) =~= joined_lines(h, 0, gtotal));
        }
        while n < total
            invariant
                self.wf(),
                h == self.spec_handler(),
                gtotal == total as int,
                gtotal == total_lines_of_handler(h),
                n <= total,
                joined_lines(h, 0, gtotal) == out@ + joined_lines(h, n as int, gtotal),
            decreases total - n,
        {
            let line = match self.file_handler.get_line(n) {
                Some(line) => line,
                None => {
                    proof {
                        assert(false);
                    }
                    String::new()
                },
            };
            let ghost out0 = out@;
            let bytes = line.as_str().as_bytes();
            crate::replacer::append_range(&mut out, bytes, 0, bytes.len());
            out.push(10);
            proof {
                assert(bytes@.subrange(0, bytes@.len() as int) =~= bytes@);
                assert(out@ =~= out0 + (encode_utf8(probe_line(h, n).unwrap()) + seq![10u8]));
                assert(out0 + (encode_utf8(probe_line(h, n).unwrap()) + seq![10u8] + joined_lines(
                    h,
                    n + 1int,
                    gtotal,
                )) =~= out@ + joined_lines(h, n + 1int, gtotal));
            }
            n = n + 1;
        }
        out
    }
}

} // verus!

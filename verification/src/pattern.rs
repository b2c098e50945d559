use vstd::prelude::*;

verus! {

use vstd::utf8::encode_utf8;

#[verifier::external_type_specification]
#[verifier::external_body]
pub struct ExRegex(regex::Regex);

#[verifier::external_type_specification]
#[verifier::external_body]
pub struct ExBytesRegex(regex::bytes::Regex);

/// The pattern text a compiled `regex::Regex` was built from.
pub uninterp spec fn regex_pattern(re: regex::Regex) -> Seq<char>;

/// Whether `regex::Regex::new` accepts a pattern text.
pub uninterp spec fn pattern_ok(pattern: Seq<char>) -> bool;

/// The `(start, end)` byte ranges of the successive non-overlapping matches
/// that `regex::Regex::find_iter` yields for a pattern over the UTF-8 bytes of
/// a haystack.
pub uninterp spec fn regex_matches(pattern: Seq<char>, hay: Seq<u8>) -> Seq<(int, int)>;

/// What `regex::escape` turns a text into: a pattern matching it literally.
pub uninterp spec fn escaped(text: Seq<char>) -> Seq<char>;

/// What `str::to_lowercase` turns a text into; a function of the characters
/// alone.
pub uninterp spec fn lower_of(text: Seq<char>) -> Seq<char>;

/// The pattern text a compiled `regex::bytes::Regex` was built from.
pub uninterp spec fn bytes_pattern(re: regex::bytes::Regex) -> Seq<char>;

/// Whether `regex::bytes::Regex::new` accepts a pattern text.
pub uninterp spec fn bytes_pattern_ok(pattern: Seq<char>) -> bool;

/// For each successive non-overlapping match of a byte pattern in a haystack:
/// its `(start, end)` byte range and the replacement template expanded with
/// the match's capture groups, as `regex::bytes::Regex::captures_iter` and
/// `regex::bytes::Captures::expand` yield them.
pub uninterp spec fn bytes_expansions(pattern: Seq<char>, template: Seq<u8>, hay: Seq<u8>) -> Seq<
    (int, int, Seq<u8>),
>;

/// Match ranges are well-formed over a haystack of the given length: each
/// range lies inside the haystack, and successive matches are disjoint with
/// strictly increasing starts.
pub open spec fn match_ranges_wf(ms: Seq<(int, int)>, hay_len: int) -> bool {
    &&& forall|i: int| 0 <= i < ms.len() ==> 0 <= (#[trigger] ms[i]).0 <= ms[i].1 <= hay_len
    &&& forall|i: int, j: int|
        0 <= i < j < ms.len() ==> (#[trigger] ms[i]).1 <= (#[trigger] ms[j]).0 && ms[i].0 < ms[j].0
}

/// As `match_ranges_wf`, over match-and-expansion triples.
pub open spec fn expansions_wf(ms: Seq<(int, int, Seq<u8>)>, hay_len: int) -> bool {
    &&& forall|i: int| 0 <= i < ms.len() ==> 0 <= (#[trigger] ms[i]).0 <= ms[i].1 <= hay_len
    &&& forall|i: int, j: int|
        0 <= i < j < ms.len() ==> (#[trigger] ms[i]).1 <= (#[trigger] ms[j]).0 && ms[i].0 < ms[j].0
}

/// An executable list of ranges agrees pointwise with a spec sequence of
/// match ranges.
pub open spec fn ranges_agree(v: Seq<(usize, usize)>, ms: Seq<(int, int)>) -> bool {
    &&& v.len() == ms.len()
    &&& forall|i: int|
        0 <= i < v.len() ==> (#[trigger] v[i]).0 == ms[i].0 && (#[trigger] v[i]).1 == ms[i].1
}

/// Relies on `regex::Regex::new`: compilation succeeds or fails on the
/// pattern text alone, and the compiled value matches per that text.
#[verifier::external_body]
pub(crate) fn regex_new(pattern: &str) -> (r: Option<regex::Regex>)
    ensures
        r is Some <==> pattern_ok(pattern@),
        r matches Some(re) ==> regex_pattern(re) == pattern@,
{
    regex::Regex::new(pattern).ok()
}

/// The returned list is the named match list, and that list is well-formed.
pub open spec fn find_all_post(v: Seq<(usize, usize)>, ms: Seq<(int, int)>, hay_len: int) -> bool {
    ranges_agree(v, ms) && match_ranges_wf(ms, hay_len)
}

/// Relies on `regex::Regex::find_iter`: it yields the successive
/// non-overlapping matches, earliest first, as in-range byte offsets into the
/// haystack.
#[verifier::external_body]
pub(crate) fn regex_find_all(re: &regex::Regex, text: &str) -> (r: Vec<(usize, usize)>)
    ensures
        find_all_post(
            r@,
            regex_matches(regex_pattern(*re), encode_utf8(text@)),
            encode_utf8(text@).len() as int,
        ),
{
    re.find_iter(text).map(|m| (m.start(), m.end())).collect()
}

/// Relies on `regex::Regex::find`: it returns the leftmost match, which is
/// the first match `find_iter` yields.
#[verifier::external_body]
pub(crate) fn regex_find_first(re: &regex::Regex, text: &str) -> (r: Option<(usize, usize)>)
    ensures
        r is Some <==> regex_matches(regex_pattern(*re), encode_utf8(text@)).len() > 0,
        r matches Some(m) ==> {
            let ms = regex_matches(regex_pattern(*re), encode_utf8(text@));
            m.0 == ms[0].0 && m.1 == ms[0].1 && m.0 <= m.1 <= encode_utf8(text@).len()
        },
{
    re.find(text).map(|m| (m.start(), m.end()))
}

/// Relies on `regex::escape`: the escaped text is a function of the text
/// alone, and escaping an empty text yields an empty pattern.
#[verifier::external_body]
pub(crate) fn regex_escape(text: &str) -> (r: String)
    ensures
        r@ == escaped(text@),
        text@.len() == 0 ==> r@.len() == 0,
{
    regex::escape(text)
}

/// Relies on `str::to_lowercase`: the result is a function of the characters
/// alone, and an empty text stays empty.
#[verifier::external_body]
pub(crate) fn to_lowercase(text: &str) -> (r: String)
    ensures
        r@ == lower_of(text@),
        text@.len() == 0 ==> r@.len() == 0,
{
    text.to_lowercase()
}

/// What `regex::Regex::replace_all` turns a text into, given a pattern and a
/// replacement template; a function of the three alone.
pub uninterp spec fn regex_replaced(pattern: Seq<char>, template: Seq<char>, text: Seq<char>) -> Seq<
    char,
>;

/// Relies on `regex::Regex::replace_all`: every non-overlapping match is
/// replaced by the template with its capture references filled in, and a text
/// without matches is returned unchanged.
#[verifier::external_body]
pub(crate) fn regex_replace_all(re: &regex::Regex, text: &str, template: &str) -> (r: String)
    ensures
        r@ == regex_replaced(regex_pattern(*re), template@, text@),
        regex_matches(regex_pattern(*re), encode_utf8(text@)).len() == 0 ==> r@ == text@,
{
    re.replace_all(text, template).into_owned()
}

/// Relies on `regex::bytes::Regex::new`: compilation succeeds or fails on the
/// pattern text alone; on failure the error's text is returned.
#[verifier::external_body]
pub(crate) fn bytes_regex_new(pattern: &str) -> (r: Result<regex::bytes::Regex, String>)
    ensures
        r is Ok <==> bytes_pattern_ok(pattern@),
        r matches Ok(re) ==> bytes_pattern(re) == pattern@,
{
    regex::bytes::Regex::new(pattern).map_err(|e| e.to_string())
}

/// The returned list is the named expansion list, and that list is
/// well-formed.
pub open spec fn find_expand_post(
    v: Seq<(usize, usize, Vec<u8>)>,
    ms: Seq<(int, int, Seq<u8>)>,
    hay_len: int,
) -> bool {
    &&& v.len() == ms.len()
    &&& expansions_wf(ms, hay_len)
    &&& forall|i: int|
        0 <= i < v.len() ==> (#[trigger] v[i]).0 == ms[i].0 && v[i].1 == ms[i].1 && v[i].2@
            == ms[i].2
}

/// Relies on `regex::bytes::Regex::captures_iter` and
/// `regex::bytes::Captures::expand`: the iterator yields the successive
/// non-overlapping matches, earliest first, with in-range offsets, and
/// `expand` writes the template with the match's capture references filled in.
#[verifier::external_body]
pub(crate) fn bytes_find_expand(re: &regex::bytes::Regex, hay: &[u8], template: &[u8]) -> (r: Vec<
    (usize, usize, Vec<u8>),
>)
    ensures
        find_expand_post(r@, bytes_expansions(bytes_pattern(*re), template@, hay@), hay@.len() as int),
{
    let mut out = Vec::new();
    for cap in re.captures_iter(hay) {
        let m = cap.get(0).unwrap();
        let mut dst = Vec::new();
        cap.expand(template, &mut dst);
        out.push((m.start(), m.end(), dst));
    }
    out
}

} // verus!

use vstd::prelude::*;

verus! {

/// The needle occurs in the haystack at position `i`.
pub open spec fn occurs_at(hay: Seq<u8>, needle: Seq<u8>, i: int) -> bool {
    0 <= i && i + needle.len() <= hay.len() && hay.subrange(i, i + needle.len()) == needle
}

/// The first position at or after `from` where the needle occurs, if any.
pub open spec fn first_occ_from(hay: Seq<u8>, needle: Seq<u8>, from: int) -> Option<int>
    decreases hay.len() - from + 1,
{
    if from < 0 || from + needle.len() > hay.len() {
        None
    } else if occurs_at(hay, needle, from) {
        Some(from)
    } else {
        first_occ_from(hay, needle, from + 1)
    }
}

/// The first position where the needle occurs, if any.
pub open spec fn first_occ(hay: Seq<u8>, needle: Seq<u8>) -> Option<int> {
    first_occ_from(hay, needle, 0)
}

/// The positions of the needle's non-overlapping occurrences at or after
/// `from`, scanning left to right and stepping past each whole occurrence. An
/// empty needle has no occurrences.
pub open spec fn occ_positions_from(hay: Seq<u8>, needle: Seq<u8>, from: int) -> Seq<int>
    decreases hay.len() - from + 1,
{
    if needle.len() == 0 {
        Seq::empty()
    } else {
        match first_occ_from(hay, needle, from) {
            None => Seq::empty(),
            Some(p) => if from <= p && p + needle.len() <= hay.len() {
                seq![p] + occ_positions_from(hay, needle, p + needle.len())
            } else {
                Seq::empty()
            },
        }
    }
}

/// The text from `cursor` on; nothing when the cursor lies outside the text.
pub open spec fn tail_from(text: Seq<u8>, cursor: int) -> Seq<u8> {
    if 0 <= cursor <= text.len() {
        text.subrange(cursor, text.len() as int)
    } else {
        Seq::empty()
    }
}

/// The text with each occurrence of the needle (found in `hay`, a searched
/// rendering of the text such as its lowercasing) replaced: at each occurrence
/// position the text up to it is kept, the replacement written, and the write
/// cursor advanced by `step` (the replaced span's length in the text).
/// Occurrences the cursor has already passed, or lying outside the text, are
/// skipped.
pub open spec fn spec_replace_occ(
    text: Seq<u8>,
    hay: Seq<u8>,
    needle: Seq<u8>,
    repl: Seq<u8>,
    step: int,
    cursor: int,
    from: int,
) -> Seq<u8>
    decreases hay.len() - from + 1,
{
    if needle.len() == 0 {
        tail_from(text, cursor)
    } else {
        match first_occ_from(hay, needle, from) {
            None => tail_from(text, cursor),
            Some(p) => if from <= p && p + needle.len() <= hay.len() {
                if cursor <= p && p <= text.len() && 0 <= cursor {
                    text.subrange(cursor, p) + repl + spec_replace_occ(
                        text,
                        hay,
                        needle,
                        repl,
                        step,
                        p + step,
                        p + needle.len(),
                    )
                } else {
                    spec_replace_occ(text, hay, needle, repl, step, cursor, p + needle.len())
                }
            } else {
                tail_from(text, cursor)
            },
        }
    }
}

/// Find the needle's first occurrence in the haystack at or after `from`, by
/// direct comparison.
pub fn find_sub_from(hay: &[u8], needle: &[u8], from: usize) -> (r: Option<usize>)
    ensures
        r matches Some(p) ==> from <= p && p + needle@.len() <= hay@.len() && occurs_at(
            hay@,
            needle@,
            p as int,
        ) && first_occ_from(hay@, needle@, from as int) == Some(p as int),
        r is None ==> first_occ_from(hay@, needle@, from as int) is None,
{
    let h = hay.len();
    let n = needle.len();
    if n > h || from > h - n {
        proof {
            assert(first_occ_from(hay@, needle@, from as int) is None);
        }
        return None;
    }
    let mut i = from;
    while i <= h - n
        invariant
            n <= h == hay@.len(),
            n == needle@.len(),
            from <= i <= h - n + 1,
            first_occ_from(hay@, needle@, from as int) == first_occ_from(
                hay@,
                needle@,
                i as int,
            ),
        decreases h - n + 1 - i,
    {
        let mut j: usize = 0;
        while j < n && hay[i + j] == needle[j]
            invariant
                j <= n,
                i + n <= h == hay@.len(),
                n == needle@.len(),
                forall|k: int| 0 <= k < j ==> hay@[i + k] == needle@[k],
            decreases n - j,
        {
            j = j + 1;
        }
        if j == n {
            proof {
                assert(hay@.subrange(i as int, i + n as int) =~= needle@);
            }
            return Some(i);
        }
        proof {
            // the needle differs at position j, so no occurrence at i
            if occurs_at(hay@, needle@, i as int) {
                assert(hay@.subrange(i as int, i + n as int)[j as int] == needle@[j as int]);
            }
        }
        i = i + 1;
    }
    proof {
        assert(first_occ_from(hay@, needle@, i as int) is None);
    }
    None
}

/// Find the needle's first occurrence in the haystack.
pub fn find_sub(hay: &[u8], needle: &[u8]) -> (r: Option<usize>)
    ensures
        r matches Some(p) ==> p + needle@.len() <= hay@.len() && first_occ(hay@, needle@) == Some(
            p as int,
        ),
        r is None ==> first_occ(hay@, needle@) is None,
{
    find_sub_from(hay, needle, 0)
}

/// Count the needle's non-overlapping occurrences in the haystack.
pub fn count_occurrences(hay: &[u8], needle: &[u8]) -> (r: usize)
    ensures
        r as int == occ_positions_from(hay@, needle@, 0).len(),
{
    let n = needle.len();
    if n == 0 {
        return 0;
    }
    let h = hay.len();
    let mut from: usize = 0;
    let mut count: usize = 0;
    let mut done = false;
    while !done
        invariant
            n == needle@.len(),
            h == hay@.len(),
            n >= 1,
            from <= h + n,
            count <= from,
            count as int + occ_positions_from(hay@, needle@, from as int).len()
                == occ_positions_from(hay@, needle@, 0).len(),
            done ==> occ_positions_from(hay@, needle@, from as int).len() == 0,
        decreases h + n - from, (if done {
            0int
        } else {
            1int
        }),
    {
        match find_sub_from(hay, needle, from) {
            Some(p) => {
                count = count + 1;
                from = p + n;
            },
            None => {
                done = true;
            },
        }
    }
    count
}

/// Rewrite the text, replacing every non-overlapping occurrence of the needle
/// found in `hay` — a searched rendering of the text, such as its lowercasing
/// for case-insensitive work, or the text itself — and advancing the write
/// cursor by `step` past each occurrence.
pub fn replace_occurrences(
    text: &[u8],
    hay: &[u8],
    needle: &[u8],
    repl: &[u8],
    step: usize,
) -> (r: Vec<u8>)
    ensures
        r@ == spec_replace_occ(text@, hay@, needle@, repl@, step as int, 0, 0),
{
    let tlen = text.len();
    let hlen = hay.len();
    let n = needle.len();
    let mut out: Vec<u8> = Vec::new();
    let mut cursor: usize = 0;
    let ghost mut gcursor: int = 0;
    let mut from: usize = 0;
    let mut done = false;
    if n == 0 {
        crate::replacer::append_range(&mut out, text, 0, tlen);
        proof {
            assert(out@ =~= tail_from(text@, 0));
        }
        return out;
    }
    while !done
        invariant
            n == needle@.len(),
            tlen == text@.len(),
            hlen == hay@.len(),
            n >= 1,
            from <= hay@.len() + n,
            gcursor >= 0,
            gcursor <= usize::MAX as int ==> cursor as int == gcursor,
            gcursor > usize::MAX as int ==> cursor == usize::MAX && gcursor > text@.len(),
            spec_replace_occ(text@, hay@, needle@, repl@, step as int, 0, 0) == out@
                + spec_replace_occ(
                text@,
                hay@,
                needle@,
                repl@,
                step as int,
                gcursor,
                from as int,
            ),
            done ==> spec_replace_occ(
                text@,
                hay@,
                needle@,
                repl@,
                step as int,
                gcursor,
                from as int,
            ) == tail_from(text@, gcursor) && first_occ_from(hay@, needle@, from as int) is None,
        decreases hay@.len() + n - from, (if done {
            0int
        } else {
            1int
        }),
    {
        match find_sub_from(hay, needle, from) {
            Some(p) => {
                if cursor <= p && p <= tlen {
                    crate::replacer::append_range(&mut out, text, cursor, p);
                    crate::replacer::append_range(&mut out, repl, 0, repl.len());
                    proof {
                        assert(repl@.subrange(0, repl@.len() as int) =~= repl@);
                        gcursor = p + step;
                    }
                    if p <= usize::MAX - step {
                        cursor = p + step;
                    } else {
                        cursor = usize::MAX;
                    }
                } else {
                    proof {
                        // the occurrence was already passed by the cursor
                        assert(!(gcursor <= p && p <= text@.len() && 0 <= gcursor));
                    }
                }
                from = p + n;
            },
            None => {
                done = true;
            },
        }
    }
    if cursor <= tlen {
        crate::replacer::append_range(&mut out, text, cursor, tlen);
        proof {
            if gcursor <= usize::MAX as int {
                assert(text@.subrange(cursor as int, tlen as int) =~= tail_from(text@, gcursor));
            } else {
                assert(text@.subrange(cursor as int, tlen as int) =~= Seq::<u8>::empty());
                assert(tail_from(text@, gcursor) =~= Seq::<u8>::empty());
            }
        }
    } else {
        proof {
            assert(tail_from(text@, gcursor) =~= Seq::<u8>::empty());
        }
    }
    out
}

} // verus!

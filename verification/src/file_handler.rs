use vstd::prelude::*;

verus! {

broadcast use vstd::std_specs::hash::group_hash_axioms;

use std::collections::HashMap;
use crate::encoding::{utf8_lossy, utf8_lossy_to_string};
use crate::file_reader::ByteSource;
use crate::line_indexer::{
    count_nl,
    total_lines_of,
    line_start_of,
    lemma_line_start_monotone,
    lemma_line_start_unique,
    lemma_count_nl_le,
    lemma_offset_in_line_range,
};

/// The bytes of line `n`: from its start to the next line's start, or to the
/// end of the file for the last line. The trailing newline, if any, is
/// included.
pub open spec fn spec_line_bytes(s: Seq<u8>, n: int) -> Seq<u8> {
    let start = line_start_of(s, n);
    let end = if n + 1 < total_lines_of(s) {
        line_start_of(s, n + 1)
    } else {
        s.len() as int
    };
    s.subrange(start, end)
}

/// The bytes with every trailing newline and carriage return removed.
pub open spec fn strip_eol(b: Seq<u8>) -> Seq<u8>
    decreases b.len(),
{
    if b.len() > 0 && (b.last() == 10u8 || b.last() == 13u8) {
        strip_eol(b.drop_last())
    } else {
        b
    }
}

/// The text of line `n` as the handler serves it: the line's bytes, stripped
/// of their end-of-line marker, decoded leniently as UTF-8.
pub open spec fn spec_line_text(s: Seq<u8>, n: int) -> Seq<char> {
    utf8_lossy(strip_eol(spec_line_bytes(s, n)))
}

/// What `FileHandler::get_line` serves for a line number: the stored
/// modification when one is present (whatever the number), else the file's
/// own line, or nothing beyond the total.
pub open spec fn probe_line(h: FileHandler, m: usize) -> Option<Seq<char>> {
    if h.spec_modified().contains_key(m) {
        Some(h.spec_modified()[m]@)
    } else if (m as int) < total_lines_of(h.spec_bytes()) {
        Some(spec_line_text(h.spec_bytes(), m as int))
    } else {
        None
    }
}

/// A file's bytes together with a dense index of line-start offsets and a
/// store of in-memory line modifications that overlay the file's own lines.
pub struct FileHandler {
    data: ByteSource,
    line_offsets: Vec<usize>,
    modified_lines: HashMap<usize, String>,
    file_size: usize,
}

impl FileHandler {
    /// The file's bytes.
    pub closed spec fn spec_bytes(&self) -> Seq<u8> {
        self.data@
    }

    /// The in-memory modifications, by line number.
    pub closed spec fn spec_modified(&self) -> Map<usize, String> {
        self.modified_lines@
    }

    /// The index lists exactly the start offset of each line of the file.
    pub closed spec fn wf(&self) -> bool {
        &&& self.file_size == self.spec_bytes().len()
        &&& self.line_offsets@.len() as int == total_lines_of(self.spec_bytes())
        &&& forall|k: int|
            0 <= k < self.line_offsets@.len() ==> (#[trigger] self.line_offsets@[k]) as int
                == line_start_of(self.spec_bytes(), k)
    }

    /// Build a handler over an owned buffer, indexing every line start.
    /// Fails with `EmptyFile` when the buffer holds no bytes: a zero-length
    /// file cannot be opened.
    pub fn from_bytes(data: Vec<u8>) -> (r: Result<FileHandler, crate::errors::CoreError>)
        ensures
            r matches Ok(h) ==> h.wf() && h.spec_bytes() == data@ && h.spec_modified()
                == Map::<usize, String>::empty(),
            r is Err <==> data@.len() == 0,
            r matches Err(e) ==> e is EmptyFile,
    {
        Self::from_source(ByteSource::Owned(data))
    }

    /// Build a handler over a memory mapping the caller created, indexing
    /// every line start. Fails with `EmptyFile` when the mapping holds no
    /// bytes.
    pub fn from_mmap(mmap: memmap2::Mmap) -> (r: Result<FileHandler, crate::errors::CoreError>)
        ensures
            r matches Ok(h) ==> h.wf() && h.spec_bytes() == crate::file_reader::mmap_bytes(mmap)
                && h.spec_modified() == Map::<usize, String>::empty(),
            r is Err <==> crate::file_reader::mmap_bytes(mmap).len() == 0,
            r matches Err(e) ==> e is EmptyFile,
    {
        Self::from_source(ByteSource::Mapped(mmap))
    }

    /// Build a handler over a byte source, indexing every line start. Fails
    /// with `EmptyFile` when the source holds no bytes.
    pub fn from_source(data: ByteSource) -> (r: Result<FileHandler, crate::errors::CoreError>)
        ensures
            r matches Ok(h) ==> h.wf() && h.spec_bytes() == data@ && h.spec_modified()
                == Map::<usize, String>::empty(),
            r is Err <==> data@.len() == 0,
            r matches Err(e) ==> e is EmptyFile,
    {
        let ghost s: Seq<u8> = data@;
        let len = data.len();
        if len == 0 {
            return Err(crate::errors::CoreError::EmptyFile);
        }
        let bytes = data.slice(0, len);
        let mut offsets: Vec<usize> = Vec::new();
        offsets.push(0);
        let mut i: usize = 0;
        while i < len
            invariant
                bytes@ == s,
                len == s.len(),
                i <= len,
                offsets@.len() >= 1,
                i < len ==> offsets@.len() as int == 1 + count_nl(s, i as int),
                i == len ==> offsets@.len() as int == total_lines_of(s),
                forall|k: int|
                    0 <= k < offsets@.len() ==> (#[trigger] offsets@[k]) as int == line_start_of(
                        s,
                        k,
                    ),
            decreases len - i,
        {
            proof {
                lemma_count_nl_le(s, i + 1int);
            }
            if bytes[i] == 10 && i + 1 < len {
                let ghost prev = offsets@;
                let ghost c = offsets@.len() as int;
                proof {
                    lemma_offset_in_line_range(s, i + 1int);
                    lemma_line_start_unique(s, i + 1int, c);
                }
                offsets.push(i + 1);
                proof {
                    assert(forall|k: int| 0 <= k < prev.len() ==> offsets@[k] == #[trigger] prev[k]);
                }
            }
            i = i + 1;
        }
        Ok(
            FileHandler {
                data,
                line_offsets: offsets,
                modified_lines: HashMap::new(),
                file_size: len,
            },
        )
    }

    /// The total number of lines: the newline count, plus one when the file
    /// does not end in a newline (or is empty).
    pub fn total_lines(&self) -> (r: usize)
        requires
            self.wf(),
        ensures
            r as int == total_lines_of(self.spec_bytes()),
    {
        self.line_offsets.len()
    }

    /// The file's size in bytes.
    pub fn file_size(&self) -> (r: usize)
        requires
            self.wf(),
        ensures
            r == self.spec_bytes().len(),
    {
        self.file_size
    }

    /// One line's text: the stored modification when one is present (whatever
    /// the line number), else the indexed line stripped of its end-of-line
    /// marker, or nothing when the line number is out of range.
    pub fn get_line(&self, line_num: usize) -> (r: Option<String>)
        requires
            self.wf(),
        ensures
            self.spec_modified().contains_key(line_num) ==> (r matches Some(l) && l@
                == self.spec_modified()[line_num]@),
            !self.spec_modified().contains_key(line_num) && (line_num as int) < total_lines_of(
                self.spec_bytes(),
            ) ==> (r matches Some(l) && l@ == spec_line_text(self.spec_bytes(), line_num as int)),
            !self.spec_modified().contains_key(line_num) && (line_num as int) >= total_lines_of(
                self.spec_bytes(),
            ) ==> r is None,
    {
        match self.modified_lines.get(&line_num) {
            Some(l) => {
                return Some(l.clone());
            },
            None => {},
        }
        if line_num >= self.line_offsets.len() {
            return None;
        }
        let ghost s: Seq<u8> = self.spec_bytes();
        let start = self.line_offsets[line_num];
        proof {
            lemma_line_start_monotone(s, line_num as int);
        }
        let end = if line_num + 1 < self.line_offsets.len() {
            self.line_offsets[line_num + 1]
        } else {
            self.file_size
        };
        // strip the end-of-line marker at the byte level, then decode
        let bytes = self.data.slice(start, end);
        let ghost line = spec_line_bytes(s, line_num as int);
        let mut e = end - start;
        proof {
            assert(line.subrange(0, e as int) =~= line);
        }
        while e > 0 && (bytes[e - 1] == 10 || bytes[e - 1] == 13)
            invariant
                bytes@ == line,
                e <= line.len(),
                strip_eol(line) == strip_eol(line.subrange(0, e as int)),
            decreases e,
        {
            proof {
                assert(line.subrange(0, e as int).drop_last() =~= line.subrange(0, e - 1int));
            }
            e = e - 1;
        }
        proof {
            assert(strip_eol(line.subrange(0, e as int)) == line.subrange(0, e as int));
            assert(bytes@.subrange(0, e as int) =~= line.subrange(0, e as int));
        }
        let stripped = self.data.slice(start, start + e);
        proof {
            assert(stripped@ =~= strip_eol(line));
        }
        Some(utf8_lossy_to_string(stripped))
    }

    /// The lines of the viewport `[start_line, start_line + count)`, clamped
    /// to the total, each served as `get_line` serves it.
    pub fn get_viewport_lines(&self, start_line: usize, count: usize) -> (r: Vec<String>)
        requires
            self.wf(),
        ensures
            r@.len() == if (start_line as int) < total_lines_of(self.spec_bytes()) {
                let e = if start_line + count <= total_lines_of(self.spec_bytes()) {
                    start_line + count
                } else {
                    total_lines_of(self.spec_bytes())
                };
                e - start_line
            } else {
                0int
            },
            forall|i: int|
                0 <= i < r@.len() ==> (#[trigger] r@[i])@ == if self.spec_modified().contains_key(
                    (start_line + i) as usize,
                ) {
                    self.spec_modified()[(start_line + i) as usize]@
                } else {
                    spec_line_text(self.spec_bytes(), start_line + i)
                },
    {
        let total = self.line_offsets.len();
        let end_line = if start_line <= total && count <= total - start_line {
            start_line + count
        } else {
            total
        };
        let mut r: Vec<String> = Vec::new();
        let mut n = start_line;
        if start_line >= total {
            return r;
        }
        while n < end_line
            invariant
                self.wf(),
                start_line <= n <= end_line,
                end_line as int <= total_lines_of(self.spec_bytes()),
                r@.len() == n - start_line,
                forall|i: int|
                    0 <= i < r@.len() ==> (#[trigger] r@[i])@ == if self.spec_modified(
                    ).contains_key((start_line + i) as usize) {
                        self.spec_modified()[(start_line + i) as usize]@
                    } else {
                        spec_line_text(self.spec_bytes(), start_line + i)
                    },
            decreases end_line - n,
        {
            let ghost r0 = r@;
            match self.get_line(n) {
                Some(l) => {
                    r.push(l);
                },
                None => {
                    proof {
                        assert(false);
                    }
                },
            }
            proof {
                assert(forall|k: int| 0 <= k < r0.len() ==> r@[k] == #[trigger] r0[k]);
            }
            n = n + 1;
        }
        r
    }

    /// Store an in-memory modification for a line; it overlays the file's own
    /// line until the modifications are cleared.
    pub fn set_line(&mut self, line_num: usize, content: String) -> (r: Result<
        (),
        crate::errors::CoreError,
    >)
        requires
            old(self).wf(),
        ensures
            final(self).wf(),
            final(self).spec_bytes() == old(self).spec_bytes(),
            final(self).spec_modified() == old(self).spec_modified().insert(line_num, content),
            r is Ok,
    {
        self.modified_lines.insert(line_num, content);
        Ok(())
    }

    /// Drop every in-memory modification.
    pub fn clear_modifications(&mut self) -> (r: Result<(), crate::errors::CoreError>)
        requires
            old(self).wf(),
        ensures
            final(self).wf(),
            final(self).spec_bytes() == old(self).spec_bytes(),
            final(self).spec_modified() == Map::<usize, String>::empty(),
            r is Ok,
    {
        self.modified_lines = HashMap::new();
        Ok(())
    }

    /// The raw bytes of a line, end-of-line marker included; modifications are
    /// not consulted. Nothing when the line number is out of range.
    pub fn get_line_bytes(&self, line_num: usize) -> (r: Option<&[u8]>)
        requires
            self.wf(),
        ensures
            (line_num as int) < total_lines_of(self.spec_bytes()) ==> (r matches Some(b) && b@
                == spec_line_bytes(self.spec_bytes(), line_num as int)),
            (line_num as int) >= total_lines_of(self.spec_bytes()) ==> r is None,
    {
        if line_num >= self.line_offsets.len() {
            return None;
        }
        let start = self.line_offsets[line_num];
        proof {
            lemma_line_start_monotone(self.spec_bytes(), line_num as int);
        }
        let end = if line_num + 1 < self.line_offsets.len() {
            self.line_offsets[line_num + 1]
        } else {
            self.file_size
        };
        Some(self.data.slice(start, end))
    }

    /// Every line of the file paired with its number, each served as
    /// `get_line` serves it.
    pub fn iter_lines(&self) -> (r: Vec<(usize, String)>)
        requires
            self.wf(),
        ensures
            r@.len() as int == total_lines_of(self.spec_bytes()),
            forall|i: int|
                0 <= i < r@.len() ==> (#[trigger] r@[i]).0 == i && r@[i].1@ == if self.spec_modified(
                ).contains_key(i as usize) {
                    self.spec_modified()[i as usize]@
                } else {
                    spec_line_text(self.spec_bytes(), i)
                },
    {
        let total = self.line_offsets.len();
        let mut r: Vec<(usize, String)> = Vec::new();
        let mut n: usize = 0;
        while n < total
            invariant
                self.wf(),
                n <= total,
                total as int == total_lines_of(self.spec_bytes()),
                r@.len() == n,
                forall|i: int|
                    0 <= i < r@.len() ==> (#[trigger] r@[i]).0 == i && r@[i].1@
                        == if self.spec_modified().contains_key(i as usize) {
                        self.spec_modified()[i as usize]@
                    } else {
                        spec_line_text(self.spec_bytes(), i)
                    },
            decreases total - n,
        {
            let ghost r0 = r@;
            match self.get_line(n) {
                Some(l) => {
                    r.push((n, l));
                },
                None => {
                    proof {
                        assert(false);
                    }
                },
            }
            proof {
                assert(forall|k: int| 0 <= k < r0.len() ==> r@[k] == #[trigger] r0[k]);
            }
            n = n + 1;
        }
        r
    }
}

} // verus!

use vstd::prelude::*;

verus! {

use crate::encoding::{EncodingId, decoded, decode_bytes};
use crate::errors::CoreError;

#[verifier::external_type_specification]
#[verifier::external_body]
pub struct ExMmap(memmap2::Mmap);

/// The bytes a read-only memory mapping holds. A mapping never changes for
/// the lifetime of the handle, so its contents are a function of the value.
pub uninterp spec fn mmap_bytes(m: memmap2::Mmap) -> Seq<u8>;

/// Relies on `memmap2::Mmap`'s deref to `[u8]`: the mapping is one fixed byte
/// slice, whose length a `usize` holds.
#[verifier::external_body]
fn mmap_len(m: &memmap2::Mmap) -> (r: usize)
    ensures
        r == mmap_bytes(*m).len(),
{
    m.len()
}

/// Relies on `memmap2::Mmap`'s deref to `[u8]`: an in-range subrange of the
/// mapping is the corresponding subrange of its bytes.
#[verifier::external_body]
fn mmap_slice<'a>(m: &'a memmap2::Mmap, start: usize, end: usize) -> (r: &'a [u8])
    requires
        start <= end <= mmap_bytes(*m).len(),
    ensures
        r@ == mmap_bytes(*m).subrange(start as int, end as int),
{
    &m[start..end]
}

/// Where a handle's bytes live: a read-only memory mapping made by the caller,
/// or an owned buffer.
pub enum ByteSource {
    Mapped(memmap2::Mmap),
    Owned(Vec<u8>),
}

impl View for ByteSource {
    type V = Seq<u8>;

    open spec fn view(&self) -> Seq<u8> {
        match self {
            ByteSource::Mapped(m) => mmap_bytes(*m),
            ByteSource::Owned(v) => v@,
        }
    }
}

impl ByteSource {
    /// The number of bytes held.
    pub fn len(&self) -> (r: usize)
        ensures
            r == self@.len(),
    {
        match self {
            ByteSource::Mapped(m) => mmap_len(m),
            ByteSource::Owned(v) => v.len(),
        }
    }

    /// The bytes of the in-range `[start, end)`.
    pub fn slice(&self, start: usize, end: usize) -> (r: &[u8])
        requires
            start <= end <= self@.len(),
        ensures
            r@ == self@.subrange(start as int, end as int),
    {
        match self {
            ByteSource::Mapped(m) => mmap_slice(m, start, end),
            ByteSource::Owned(v) => {
                let sl = v.as_slice();
                &sl[start..end]
            },
        }
    }
}

/// A handle over a file's bytes: the bytes themselves, the absolute path they
/// were read from, and the encoding chosen for decoding. The handle is never
/// mutated after construction, and all byte offsets the library publishes are
/// indices into `[0, len)`.
pub struct FileReader {
    data: ByteSource,
    path: String,
    encoding: EncodingId,
}

impl View for FileReader {
    type V = Seq<u8>;

    closed spec fn view(&self) -> Seq<u8> {
        self.data@
    }
}

/// The clamped byte range a reader serves for a request `[start, end)`: the
/// end is clamped to the length, and a start at or past the clamped end gives
/// no bytes.
pub open spec fn clamped_range(s: Seq<u8>, start: int, end: int) -> Seq<u8> {
    let e = if end <= s.len() {
        end
    } else {
        s.len() as int
    };
    let b = if start <= e {
        start
    } else {
        e
    };
    s.subrange(b, e)
}

impl FileReader {
    pub closed spec fn spec_path(&self) -> Seq<char> {
        self.path@
    }

    pub closed spec fn spec_encoding(&self) -> EncodingId {
        self.encoding
    }

    /// Make a handle over a memory mapping the caller created. Fails with
    /// `EmptyFile` when the mapping holds no bytes.
    pub fn from_mmap(mmap: memmap2::Mmap, path: String, encoding: EncodingId) -> (r: Result<
        FileReader,
        CoreError,
    >)
        ensures
            r matches Ok(fr) ==> fr@ == mmap_bytes(mmap) && fr@.len() > 0 && fr.spec_path()
                == path@ && fr.spec_encoding() == encoding,
            r is Err <==> mmap_bytes(mmap).len() == 0,
            r matches Err(e) ==> e is EmptyFile,
    {
        if mmap_len(&mmap) == 0 {
            return Err(CoreError::EmptyFile);
        }
        Ok(FileReader { data: ByteSource::Mapped(mmap), path, encoding })
    }

    /// Make a handle over an owned buffer. Fails with `EmptyFile` when the
    /// buffer holds no bytes.
    pub fn from_bytes(data: Vec<u8>, path: String, encoding: EncodingId) -> (r: Result<
        FileReader,
        CoreError,
    >)
        ensures
            r matches Ok(fr) ==> fr@ == data@ && fr@.len() > 0 && fr.spec_path() == path@
                && fr.spec_encoding() == encoding,
            r is Err <==> data@.len() == 0,
            r matches Err(e) ==> e is EmptyFile,
    {
        if data.len() == 0 {
            return Err(CoreError::EmptyFile);
        }
        Ok(FileReader { data: ByteSource::Owned(data), path, encoding })
    }

    /// The byte length of the handle's contents.
    pub fn len(&self) -> (r: usize)
        ensures
            r == self@.len(),
    {
        self.data.len()
    }

    /// The raw bytes of `[start, end)`, with the end clamped to the length;
    /// empty when the start is at or past the clamped end.
    pub fn get_bytes(&self, start: usize, end: usize) -> (r: &[u8])
        ensures
            r@ == clamped_range(self@, start as int, end as int),
    {
        let len = self.len();
        let e = if end <= len {
            end
        } else {
            len
        };
        let b = if start <= e {
            start
        } else {
            e
        };
        self.data.slice(b, e)
    }

    /// The bytes of `[start, end)` (clamped as in `get_bytes`), decoded
    /// through the handle's encoding.
    pub fn get_chunk(&self, start: usize, end: usize) -> (r: String)
        ensures
            r@ == decoded(self.spec_encoding(), clamped_range(self@, start as int, end as int)),
    {
        let bytes = self.get_bytes(start, end);
        decode_bytes(self.encoding, bytes)
    }

    /// The whole contents.
    pub fn all_data(&self) -> (r: &[u8])
        ensures
            r@ == self@,
    {
        let len = self.len();
        let r = self.get_bytes(0, len);
        proof {
            assert(r@ =~= self@);
        }
        r
    }

    /// The path the handle was opened from.
    pub fn path(&self) -> (r: &String)
        ensures
            r@ == self.spec_path(),
    {
        &self.path
    }

    /// The encoding bound to the handle.
    pub fn encoding(&self) -> (r: EncodingId)
        ensures
            r == self.spec_encoding(),
    {
        self.encoding
    }
}

} // verus!

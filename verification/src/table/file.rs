//! The backing file, held as the sequence of its bytes.
//!
//! The image is as long as the file. Whoever owns the file on disk may hand
//! the whole of it over at once, or put each piece in its place when that
//! piece is first asked for: the table reads nothing of the file but the
//! pieces it names beforehand.

use vstd::prelude::*;

verus! {

/// The content of a file after `data` is written at `offset`: the bytes of
/// `data` replace what was there, a write past the end extends the file, and
/// a gap between the old end and `offset` reads as zero bytes.
pub open spec fn written(file: Seq<u8>, offset: nat, data: Seq<u8>) -> Seq<u8> {
    Seq::new(
        if offset + data.len() > file.len() {
            offset + data.len()
        } else {
            file.len()
        },
        |i: int|
            if offset <= i < offset + data.len() {
                data[i - offset]
            } else if i < file.len() {
                file[i]
            } else {
                0u8
            },
    )
}

/// A piece of the file: `len` bytes from `offset` on.
#[derive(Clone, Copy, Debug, PartialEq, Eq, Structural)]
pub struct FileRange {
    pub offset: u64,
    pub len: usize,
}

/// Two files hold the same bytes in `range`.
pub open spec fn same_in(a: Seq<u8>, b: Seq<u8>, range: FileRange) -> bool {
    a.subrange(range.offset as int, range.offset + range.len) == b.subrange(
        range.offset as int,
        range.offset + range.len,
    )
}

/// A file as the library sees it: its bytes, from offset zero.
pub struct FileImage {
    pub bytes: Vec<u8>,
}

impl View for FileImage {
    type V = Seq<u8>;

    open spec fn view(&self) -> Seq<u8> {
        self.bytes@
    }
}

impl FileImage {
    /// The file that holds `bytes`.
    pub fn new(bytes: Vec<u8>) -> (file: FileImage)
        ensures
            file@ == bytes@,
    {
        FileImage { bytes }
    }

    /// The length of the file in bytes.
    pub fn len(&self) -> (n: u64)
        ensures
            n == self@.len(),
    {
        self.bytes.len() as u64
    }

    /// Reads exactly `len` bytes that start at `offset`. There is no result
    /// when the file ends before `offset + len`.
    pub fn read_at(&self, offset: u64, len: usize) -> (out: Option<Vec<u8>>)
        ensures
            out is Some <==> offset + len <= self@.len(),
            out matches Some(bytes) ==> bytes@ == self@.subrange(offset as int, offset + len),
    {
        let size = self.bytes.len();
        if offset > size as u64 || len > size - offset as usize {
            return None;
        }
        let start = offset as usize;
        let mut out: Vec<u8> = Vec::new();
        let mut i: usize = 0;
        while i < len
            invariant
                start + len <= self.bytes@.len() <= usize::MAX,
                i <= len,
                out@ == self.bytes@.subrange(start as int, start + i),
            decreases len - i,
        {
            out.push(self.bytes[start + i]);
            i += 1;
        }
        Some(out)
    }

    /// Writes all of `data` at `offset`.
    pub fn write_at(&mut self, offset: u64, data: &[u8])
        requires
            offset + data@.len() <= usize::MAX,
        ensures
            final(self)@ == written(old(self)@, offset as nat, data@),
    {
        let start = offset as usize;
        while self.bytes.len() < start
            invariant
                old(self)@.len() <= self.bytes@.len(),
                self.bytes@.len() <= start || self.bytes@.len() == old(self)@.len(),
                forall|j: int|
                    0 <= j < self.bytes@.len() ==> self.bytes@[j] == if j < old(self)@.len() {
                        old(self)@[j]
                    } else {
                        0u8
                    },
            decreases start - self.bytes@.len(),
        {
            self.bytes.push(0);
        }
        let mut i: usize = 0;
        while i < data.len()
            invariant
                start + data@.len() <= usize::MAX,
                i <= data@.len(),
                start <= self.bytes@.len(),
                self.bytes@.len() == if start + i > old(self)@.len() {
                    start + i
                } else {
                    old(self)@.len() as int
                },
                forall|j: int|
                    0 <= j < self.bytes@.len() ==> self.bytes@[j] == if start <= j < start + i {
                        data@[j - start]
                    } else if j < old(self)@.len() {
                        old(self)@[j]
                    } else {
                        0u8
                    },
            decreases data@.len() - i,
        {
            if start + i < self.bytes.len() {
                self.bytes[start + i] = data[i];
            } else {
                self.bytes.push(data[i]);
            }
            i += 1;
        }
        assert(self.bytes@ =~= written(old(self)@, offset as nat, data@));
    }
}

} // verus!

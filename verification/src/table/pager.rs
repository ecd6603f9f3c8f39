//! The page cache: page-sized pieces of the backing file, loaded on first
//! access and written back on demand.

use crate::constants::{PAGE_SIZE, TABLE_MAX_PAGES};
use crate::table::file::{written, FileImage, FileRange};
use vstd::prelude::*;

verus! {

/// A failure after which a session cannot go on.
#[derive(Clone, Copy, Debug, PartialEq, Eq, Structural)]
pub enum FatalError {
    /// A page beyond the last slot was asked for.
    PageOutOfBounds { page_num: u32 },
    /// A page that is not resident was to be written back.
    FlushUnloaded { page_num: u32 },
    /// The file ended before the bytes that its recorded length promises.
    ReadFailed { page_num: u32 },
}

/// The file and the page slots, each holding the cache's bytes for one page.
pub struct Pager {
    pub file: FileImage,
    pub file_length: u64,
    pub pages: Vec<Vec<u8>>,
}

/// What a pager holds, as plain values.
pub struct PagerView {
    pub file: Seq<u8>,
    pub file_length: nat,
    pub pages: Seq<Seq<u8>>,
}

impl View for Pager {
    type V = PagerView;

    open spec fn view(&self) -> PagerView {
        PagerView {
            file: self.file@,
            file_length: self.file_length as nat,
            pages: Seq::new(self.pages@.len(), |p: int| self.pages@[p]@),
        }
    }
}

impl PagerView {
    /// There is one slot for each page, and no slot holds more than a page.
    pub open spec fn wf(self) -> bool {
        &&& self.pages.len() == TABLE_MAX_PAGES
        &&& forall|p: int| 0 <= p < self.pages.len() ==> (#[trigger] self.pages[p]).len() <= PAGE_SIZE
    }

    /// A slot is resident when it holds at least one byte.
    pub open spec fn resident(self, p: int) -> bool {
        self.pages[p].len() > 0
    }

    /// The number of pages that the file held when it was opened, a trailing
    /// partial page counted as one.
    pub open spec fn persisted_pages(self) -> nat {
        if self.file_length % (PAGE_SIZE as nat) > 0 {
            self.file_length / (PAGE_SIZE as nat) + 1
        } else {
            self.file_length / (PAGE_SIZE as nat)
        }
    }

    /// The end in the file of what page `p` is read from: the end of the
    /// page, or of the file where that comes first.
    pub open spec fn chunk_end(self, p: int) -> int {
        if (p + 1) * PAGE_SIZE <= self.file_length {
            (p + 1) * PAGE_SIZE
        } else {
            self.file_length as int
        }
    }

    /// The file can give the bytes of page `p`.
    pub open spec fn readable(self, p: int) -> bool {
        self.chunk_end(p) <= self.file.len()
    }

    /// The bytes of the file that belong to page `p`; none for a page beyond
    /// those the file held.
    pub open spec fn chunk(self, p: int) -> Seq<u8> {
        if p < self.persisted_pages() {
            self.file.subrange(p * PAGE_SIZE, self.chunk_end(p))
        } else {
            Seq::empty()
        }
    }

    /// The piece of the file that is read to make page `p` resident; none
    /// for a page that is resident, that the file did not hold when it was
    /// opened, or that has no slot.
    pub open spec fn read_range(self, p: int) -> Option<FileRange> {
        if 0 <= p < TABLE_MAX_PAGES && !self.resident(p) && p < self.persisted_pages() {
            Some(
                FileRange {
                    offset: (p * PAGE_SIZE) as u64,
                    len: (self.chunk_end(p) - p * PAGE_SIZE) as usize,
                },
            )
        } else {
            None
        }
    }

    /// The piece of the file that is written to write page `p` back; none
    /// for a page that is not resident.
    pub open spec fn write_range(self, p: int) -> Option<FileRange> {
        if 0 <= p < TABLE_MAX_PAGES && self.resident(p) {
            Some(FileRange { offset: (p * PAGE_SIZE) as u64, len: self.pages[p].len() as usize })
        } else {
            None
        }
    }

    /// The pieces of the file that are read to make the pages below `k`
    /// resident, in the order of the pages.
    pub open spec fn reads_below(self, k: int) -> Seq<FileRange>
        decreases k,
    {
        if k <= 0 {
            Seq::empty()
        } else {
            match self.read_range(k - 1) {
                Some(range) => self.reads_below(k - 1).push(range),
                None => self.reads_below(k - 1),
            }
        }
    }

    /// The pieces of the file that are written to write the resident pages
    /// below `k` back, in the order of the pages.
    pub open spec fn writes_below(self, k: int) -> Seq<FileRange>
        decreases k,
    {
        if k <= 0 {
            Seq::empty()
        } else {
            match self.write_range(k - 1) {
                Some(range) => self.writes_below(k - 1).push(range),
                None => self.writes_below(k - 1),
            }
        }
    }

    /// What the cache stands for at page `p`: the slot if it is resident,
    /// else what the file holds there.
    pub open spec fn content(self, p: int) -> Seq<u8> {
        if self.resident(p) {
            self.pages[p]
        } else {
            self.chunk(p)
        }
    }

    /// How an access to page `page_num` ends: with an error for a page
    /// beyond the last slot, and for an unloaded page that the file should
    /// hold but cannot give; with success for every other page.
    pub open spec fn fetch_result(self, page_num: u32) -> Result<(), FatalError> {
        if page_num > TABLE_MAX_PAGES {
            Err(FatalError::PageOutOfBounds { page_num })
        } else if !self.resident(page_num as int) && page_num < self.persisted_pages()
            && !self.readable(page_num as int) {
            Err(FatalError::ReadFailed { page_num })
        } else {
            Ok(())
        }
    }

    /// The pager after page `p` was made resident.
    pub open spec fn loaded(self, p: int) -> PagerView {
        PagerView { pages: self.pages.update(p, self.content(p)), ..self }
    }

    /// The pager after page `p` was written back and its slot cleared.
    pub open spec fn flushed(self, p: int) -> PagerView {
        PagerView {
            file: written(self.file, (p * PAGE_SIZE) as nat, self.pages[p]),
            pages: self.pages.update(p, Seq::empty()),
            ..self
        }
    }
}

impl PagerView {
    /// The pager after every resident page below `k` was written back, from
    /// page zero upwards.
    pub open spec fn flushed_below(self, k: int) -> PagerView
        decreases k,
    {
        if k <= 0 {
            self
        } else {
            let before = self.flushed_below(k - 1);
            if before.resident(k - 1) {
                before.flushed(k - 1)
            } else {
                before
            }
        }
    }
}

impl Pager {
    /// Takes over `file`, with its length as of now and every slot unloaded.
    pub fn open(file: FileImage) -> (pager: Pager)
        ensures
            pager@.file == file@,
            pager@.file_length == file@.len(),
            pager@.pages == Seq::new(TABLE_MAX_PAGES as nat, |p: int| Seq::<u8>::empty()),
            pager@.wf(),
    {
        let file_length = file.len();
        let mut pages: Vec<Vec<u8>> = Vec::new();
        let mut i: u32 = 0;
        while i < TABLE_MAX_PAGES
            invariant
                i <= TABLE_MAX_PAGES,
                pages@.len() == i,
                forall|p: int| 0 <= p < i ==> (#[trigger] pages@[p])@ == Seq::<u8>::empty(),
            decreases TABLE_MAX_PAGES - i,
        {
            pages.push(Vec::new());
            i += 1;
        }
        let pager = Pager { file, file_length, pages };
        assert(pager@.pages =~= Seq::new(TABLE_MAX_PAGES as nat, |p: int| Seq::<u8>::empty()));
        pager
    }

    /// The piece of the file that has to be read before page `page_num` is
    /// resident, if there is one.
    pub fn read_request(&self, page_num: u32) -> (request: Option<FileRange>)
        requires
            self@.wf(),
        ensures
            request == self@.read_range(page_num as int),
    {
        if page_num >= TABLE_MAX_PAGES {
            return None;
        }
        let slot = page_num as usize;
        assert(self@.pages[slot as int] == self.pages@[slot as int]@);
        if !self.pages[slot].is_empty() {
            return None;
        }
        let mut num_pages = self.file_length / PAGE_SIZE as u64;
        if self.file_length % PAGE_SIZE as u64 > 0 {
            num_pages += 1;
        }
        if page_num as u64 >= num_pages {
            return None;
        }
        let offset = (page_num * PAGE_SIZE) as u64;
        let left = self.file_length - offset;
        let len: usize = if left < PAGE_SIZE as u64 {
            left as usize
        } else {
            PAGE_SIZE as usize
        };
        Some(FileRange { offset, len })
    }

    /// The piece of the file that writing page `page_num` back fills, if the
    /// page is resident.
    pub fn write_request(&self, page_num: u32) -> (request: Option<FileRange>)
        requires
            self@.wf(),
        ensures
            request == self@.write_range(page_num as int),
    {
        if page_num >= TABLE_MAX_PAGES {
            return None;
        }
        let slot = page_num as usize;
        assert(self@.pages[slot as int] == self.pages@[slot as int]@);
        if self.pages[slot].is_empty() {
            return None;
        }
        Some(FileRange { offset: (page_num * PAGE_SIZE) as u64, len: self.pages[slot].len() })
    }

    /// The pieces of the file that making the pages below `count` resident
    /// reads, in the order of the pages.
    pub fn reads_below(&self, count: u32) -> (requests: Vec<FileRange>)
        requires
            self@.wf(),
        ensures
            requests@ == self@.reads_below(count as int),
    {
        let mut requests: Vec<FileRange> = Vec::new();
        let mut p: u32 = 0;
        while p < count
            invariant
                p <= count,
                self@.wf(),
                requests@ == self@.reads_below(p as int),
            decreases count - p,
        {
            if let Some(range) = self.read_request(p) {
                requests.push(range);
            }
            p += 1;
        }
        requests
    }

    /// The pieces of the file that writing the resident pages below `count`
    /// back fills, in the order of the pages.
    pub fn writes_below(&self, count: u32) -> (requests: Vec<FileRange>)
        requires
            self@.wf(),
        ensures
            requests@ == self@.writes_below(count as int),
    {
        let mut requests: Vec<FileRange> = Vec::new();
        let mut p: u32 = 0;
        while p < count
            invariant
                p <= count,
                self@.wf(),
                requests@ == self@.writes_below(p as int),
            decreases count - p,
        {
            if let Some(range) = self.write_request(p) {
                requests.push(range);
            }
            p += 1;
        }
        requests
    }

    /// Makes page `page_num` resident. A slot that holds bytes is left as it
    /// is; an unloaded one is filled from the file if the file held that page
    /// when it was opened, and stays unloaded if not.
    pub fn get_page(&mut self, page_num: u32) -> (r: Result<(), FatalError>)
        requires
            old(self)@.wf(),
            page_num != TABLE_MAX_PAGES,
        ensures
            final(self)@.wf(),
            r == old(self)@.fetch_result(page_num),
            r is Ok ==> final(self)@ == old(self)@.loaded(page_num as int),
            r is Err ==> final(self)@ == old(self)@,
    {
        if page_num > TABLE_MAX_PAGES {
            return Err(FatalError::PageOutOfBounds { page_num });
        }
        let slot = page_num as usize;
        assert(self@.pages[slot as int] == self.pages@[slot as int]@);
        proof {
            if self@.pages[slot as int].len() == 0 {
                assert(self@.pages[slot as int] =~= Seq::<u8>::empty());
            }
        }
        if let Some(range) = self.read_request(page_num) {
            match self.file.read_at(range.offset, range.len) {
                Some(page) => {
                    assert(page@ == old(self)@.chunk(page_num as int));
                    self.pages[slot] = page;
                },
                None => {
                    return Err(FatalError::ReadFailed { page_num });
                },
            }
        }
        assert(self@.pages =~= old(self)@.loaded(page_num as int).pages);
        Ok(())
    }

    /// Writes page `page_num` to its place in the file and clears the slot.
    pub fn flush(&mut self, page_num: u32) -> (r: Result<(), FatalError>)
        requires
            old(self)@.wf(),
            page_num < TABLE_MAX_PAGES,
        ensures
            final(self)@.wf(),
            old(self)@.resident(page_num as int) ==> r is Ok && final(self)@ == old(
                self,
            )@.flushed(page_num as int),
            !old(self)@.resident(page_num as int) ==> r == Err::<(), FatalError>(
                FatalError::FlushUnloaded { page_num },
            ) && final(self)@ == old(self)@,
    {
        let slot = page_num as usize;
        if self.pages[slot].is_empty() {
            return Err(FatalError::FlushUnloaded { page_num });
        }
        let offset = (page_num * PAGE_SIZE) as u64;
        assert(self@.pages[slot as int] == self.pages@[slot as int]@);
        self.file.write_at(offset, self.pages[slot].as_slice());
        self.pages[slot] = Vec::new();
        assert(self@.pages =~= old(self)@.flushed(page_num as int).pages);
        Ok(())
    }
}

} // verus!

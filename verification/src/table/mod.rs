//! The table: row addressing on top of the page cache.

pub mod file;
pub mod pager;
pub mod persist;
pub mod row;
pub mod transfer;

use crate::constants::{lemma_sizes, PAGE_SIZE, ROWS_PER_PAGE, ROW_SIZE, TABLE_MAX_PAGES, TABLE_MAX_ROWS};
use crate::table::file::{FileImage, FileRange};
use crate::table::pager::{Pager, PagerView};
pub use crate::table::row::{Row, RowView};
use vstd::prelude::*;

verus! {

/// The page that holds row `i`.
pub open spec fn slot_page(i: int) -> int {
    i / (ROWS_PER_PAGE as int)
}

/// The offset inside its page at which row `i` starts.
pub open spec fn slot_offset(i: int) -> int {
    (i % (ROWS_PER_PAGE as int)) * ROW_SIZE
}

/// The rows of a table, the page cache behind them, and nothing else.
pub struct Table {
    pub num_rows: u32,
    pub pager: Pager,
}

/// What a table holds, as plain values.
pub struct TableView {
    pub num_rows: nat,
    pub pager: PagerView,
}

impl View for Table {
    type V = TableView;

    open spec fn view(&self) -> TableView {
        TableView { num_rows: self.num_rows as nat, pager: self.pager@ }
    }
}

/// The outcome of an insert into a table that holds `TABLE_MAX_ROWS` rows.
#[derive(Clone, Copy, Debug, PartialEq, Eq, Structural)]
pub struct TableFull;

impl TableView {
    /// The number of the table's rows that lie on page `p`.
    pub open spec fn rows_on(self, p: int) -> int {
        if self.num_rows <= p * ROWS_PER_PAGE {
            0
        } else if self.num_rows >= (p + 1) * ROWS_PER_PAGE {
            ROWS_PER_PAGE as int
        } else {
            self.num_rows - p * ROWS_PER_PAGE
        }
    }

    /// The number of pages that hold at least one row.
    pub open spec fn pages_in_use(self) -> int {
        if self.num_rows as int % (ROWS_PER_PAGE as int) > 0 {
            self.num_rows as int / (ROWS_PER_PAGE as int) + 1
        } else {
            self.num_rows as int / (ROWS_PER_PAGE as int)
        }
    }

    /// Page `p` holds its rows densely from its first byte. A page that can
    /// still take a row ends with its last row, so that the next row is
    /// appended at its slot. A resident page reaches at least as far as the
    /// file does in that page.
    pub open spec fn page_wf(self, p: int) -> bool {
        let content = self.pager.content(p);
        &&& content.len() >= self.rows_on(p) * ROW_SIZE
        &&& self.rows_on(p) < ROWS_PER_PAGE ==> content.len() == self.rows_on(p) * ROW_SIZE
        &&& self.pager.resident(p) ==> p * PAGE_SIZE + content.len() >= self.pager.chunk_end(p)
    }

    /// The table is within its capacity, the file is as long as it was when
    /// it was opened and fits the page slots, and every page is laid out as
    /// `page_wf` says.
    pub open spec fn wf(self) -> bool {
        &&& self.pager.wf()
        &&& self.num_rows <= TABLE_MAX_ROWS
        &&& self.pager.file_length == self.pager.file.len()
        &&& self.pager.file_length <= TABLE_MAX_PAGES * PAGE_SIZE
        &&& forall|p: int| 0 <= p < TABLE_MAX_PAGES ==> #[trigger] self.page_wf(p)
    }

    /// The bytes of row `i`.
    pub open spec fn record(self, i: int) -> Seq<u8> {
        self.pager.content(slot_page(i)).subrange(slot_offset(i), slot_offset(i) + ROW_SIZE)
    }

    /// The rows of the table, in the order in which they were inserted.
    pub open spec fn rows(self) -> Seq<RowView> {
        Seq::new(self.num_rows, |i: int| RowView::decoded(self.record(i)))
    }

    /// The table that `db_open` makes of a file: no page is loaded, and the
    /// number of rows is what the length of the file has room for, or the
    /// largest number that the counter holds where that is less.
    pub open spec fn opened(file: Seq<u8>) -> TableView {
        TableView {
            num_rows: if file.len() / (ROW_SIZE as nat) <= u32::MAX {
                file.len() / (ROW_SIZE as nat)
            } else {
                u32::MAX as nat
            },
            pager: PagerView {
                file,
                file_length: file.len(),
                pages: Seq::new(TABLE_MAX_PAGES as nat, |p: int| Seq::<u8>::empty()),
            },
        }
    }

    /// The same table with `n` rows.
    pub open spec fn with_rows(self, n: nat) -> TableView {
        TableView { num_rows: n, ..self }
    }

    /// The table after page `p` was made resident.
    pub open spec fn loaded(self, p: int) -> TableView {
        TableView { pager: self.pager.loaded(p), ..self }
    }

    /// The table after one more row was inserted, with `record` as its
    /// bytes: the row's page is resident and ends with `record`.
    pub open spec fn inserted(self, record: Seq<u8>) -> TableView {
        let p = slot_page(self.num_rows as int);
        TableView {
            num_rows: self.num_rows + 1,
            pager: PagerView {
                pages: self.pager.pages.update(p, self.pager.content(p) + record),
                ..self.pager
            },
        }
    }

    /// The table after a scan: every page that holds a row is resident.
    pub open spec fn scanned(self) -> TableView {
        TableView {
            pager: PagerView {
                pages: Seq::new(
                    self.pager.pages.len(),
                    |p: int|
                        if p < self.pages_in_use() {
                            self.pager.content(p)
                        } else {
                            self.pager.pages[p]
                        },
                ),
                ..self.pager
            },
            ..self
        }
    }

    /// The table after it was closed: every resident page that holds a row
    /// was written back.
    pub open spec fn closed(self) -> TableView {
        TableView { pager: self.pager.flushed_below(self.pages_in_use()), ..self }
    }

    /// The pieces of the file that an insert reads: the page of the new
    /// row, where that is yet to be loaded.
    pub open spec fn insert_reads(self) -> Seq<FileRange> {
        if self.num_rows >= TABLE_MAX_ROWS {
            Seq::empty()
        } else {
            match self.pager.read_range(slot_page(self.num_rows as int)) {
                Some(range) => seq![range],
                None => Seq::empty(),
            }
        }
    }

    /// The pieces of the file that a scan reads: every page that holds a
    /// row and is yet to be loaded.
    pub open spec fn scan_reads(self) -> Seq<FileRange> {
        self.pager.reads_below(self.pages_in_use())
    }

    /// The pieces of the file that closing the table writes: every
    /// resident page that holds a row.
    pub open spec fn close_writes(self) -> Seq<FileRange> {
        self.pager.writes_below(self.pages_in_use())
    }

    /// The table after `record` was appended to page `p`.
    pub open spec fn appended(self, p: int, record: Seq<u8>) -> TableView {
        TableView {
            pager: PagerView {
                pages: self.pager.pages.update(p, self.pager.pages[p] + record),
                ..self.pager
            },
            ..self
        }
    }
}

/// The views of `rows`, one for one.
pub open spec fn views(rows: Seq<Row>) -> Seq<RowView> {
    Seq::new(rows.len(), |i: int| rows[i]@)
}

/// Row addresses are dense: the rows of page `p` are those from
/// `p * ROWS_PER_PAGE` on, each lies wholly inside the page, and the next
/// row of the same page starts `ROW_SIZE` bytes after it.
pub proof fn lemma_row_slot(p: int, i: int)
    requires
        0 <= p,
        p * ROWS_PER_PAGE <= i < p * ROWS_PER_PAGE + ROWS_PER_PAGE,
    ensures
        slot_page(i) == p,
        slot_offset(i) == (i - p * ROWS_PER_PAGE) * ROW_SIZE,
        slot_offset(i) + ROW_SIZE <= PAGE_SIZE,
        i + 1 < p * ROWS_PER_PAGE + ROWS_PER_PAGE ==> slot_page(i + 1) == p && slot_offset(i + 1)
            == slot_offset(i) + ROW_SIZE,
{
    lemma_sizes();
}

/// No two rows share an address.
pub proof fn lemma_row_slot_injective(i: int, j: int)
    requires
        0 <= i,
        0 <= j,
        slot_page(i) == slot_page(j),
        slot_offset(i) == slot_offset(j),
    ensures
        i == j,
{
    lemma_sizes();
}

/// Making a page resident changes no row: the table stays well formed, every
/// page stands for the same bytes as before, and no access fails.
pub proof fn lemma_loaded(t: TableView, p: int)
    requires
        t.wf(),
        0 <= p < TABLE_MAX_PAGES,
    ensures
        t.pager.fetch_result(p as u32) is Ok,
        t.loaded(p).wf(),
        forall|q: int| 0 <= q < TABLE_MAX_PAGES ==> t.loaded(p).pager.content(q) == t.pager.content(q),
        t.loaded(p).rows() == t.rows(),
{
    lemma_sizes();
    let l = t.loaded(p);
    assert(t.page_wf(p));
    assert forall|q: int| 0 <= q < TABLE_MAX_PAGES implies l.pager.content(q) == t.pager.content(
        q,
    ) by {
        if q == p && !t.pager.resident(p) {
            assert(t.pager.chunk(p).len() == 0 ==> l.pager.chunk(p) =~= t.pager.chunk(p));
        }
    }
    assert forall|q: int| 0 <= q < TABLE_MAX_PAGES implies #[trigger] l.page_wf(q) by {
        assert(t.page_wf(q));
    }
    assert forall|q: int| 0 <= q < l.pager.pages.len() implies (#[trigger] l.pager.pages[q]).len()
        <= PAGE_SIZE by {
        assert(t.pager.pages[q].len() <= PAGE_SIZE);
    }
    assert(l.rows() =~= t.rows());
}

/// Inserting a row into a table that has room appends it: the table stays
/// well formed, the rows before it are unchanged, and the new last row is
/// the one that `record` decodes to.
pub proof fn lemma_inserted(t: TableView, record: Seq<u8>)
    requires
        t.wf(),
        t.num_rows < TABLE_MAX_ROWS,
        record.len() == ROW_SIZE,
    ensures
        t.inserted(record).wf(),
        t.inserted(record).dense(),
        t.inserted(record).rows() == t.rows().push(RowView::decoded(record)),
{
    lemma_sizes();
    let n = t.num_rows as int;
    let p = slot_page(n);
    let after = t.inserted(record);
    assert(t.page_wf(p));
    assert(t.pager.pages[p].len() <= PAGE_SIZE);
    assert forall|q: int| 0 <= q < TABLE_MAX_PAGES implies #[trigger] after.page_wf(q) by {
        assert(t.page_wf(q));
    }
    assert forall|q: int| 0 <= q < after.pager.pages.len() implies (
    #[trigger] after.pager.pages[q]).len() <= PAGE_SIZE by {
        assert(t.pager.pages[q].len() <= PAGE_SIZE);
    }
    assert forall|i: int| 0 <= i < n implies after.record(i) == t.record(i) by {
        assert(t.page_wf(slot_page(i)));
        if slot_page(i) == p {
            assert(after.record(i) =~= t.record(i));
        }
    }
    assert(after.record(n) =~= record);
    assert(after.rows() =~= t.rows().push(RowView::decoded(record)));
}

/// A scan changes no row: the table stays well formed and holds the same
/// rows.
pub proof fn lemma_scanned(t: TableView)
    requires
        t.wf(),
    ensures
        t.scanned().wf(),
        t.scanned().rows() == t.rows(),
        t.scanned().dense() == t.dense(),
{
    lemma_sizes();
    let s = t.scanned();
    assert forall|q: int| 0 <= q < TABLE_MAX_PAGES implies s.pager.content(q) == t.pager.content(
        q,
    ) by {
        assert(t.page_wf(q));
        if q < t.pages_in_use() && !t.pager.resident(q) {
            assert(t.pager.chunk(q).len() == 0 ==> s.pager.chunk(q) =~= t.pager.chunk(q));
        }
    }
    assert forall|q: int| 0 <= q < TABLE_MAX_PAGES implies #[trigger] s.page_wf(q) by {
        assert(t.page_wf(q));
    }
    assert forall|q: int| 0 <= q < s.pager.pages.len() implies (#[trigger] s.pager.pages[q]).len()
        <= PAGE_SIZE by {
        assert(t.pager.pages[q].len() <= PAGE_SIZE);
    }
    assert(s.rows() =~= t.rows());
}

impl TableView {
    /// The table after one row was inserted for each of `records`, in their
    /// order.
    pub open spec fn inserted_all(self, records: Seq<Seq<u8>>) -> TableView
        decreases records.len(),
    {
        if records.len() == 0 {
            self
        } else {
            self.inserted_all(records.drop_last()).inserted(records.last())
        }
    }
}

/// The rows that `records` decode to, one for one.
pub open spec fn decoded_all(records: Seq<Seq<u8>>) -> Seq<RowView> {
    Seq::new(records.len(), |k: int| RowView::decoded(records[k]))
}

/// Round trip: after rows were inserted into a table that has room for all
/// of them, a scan gives the rows that were there before, and then the
/// inserted ones in the order of their insertion.
pub proof fn lemma_round_trip(t: TableView, records: Seq<Seq<u8>>)
    requires
        t.wf(),
        t.num_rows + records.len() <= TABLE_MAX_ROWS,
        forall|k: int| 0 <= k < records.len() ==> (#[trigger] records[k]).len() == ROW_SIZE,
    ensures
        t.inserted_all(records).wf(),
        t.inserted_all(records).num_rows == t.num_rows + records.len(),
        t.inserted_all(records).rows() == t.rows() + decoded_all(records),
        t.inserted_all(records).scanned().rows() == t.rows() + decoded_all(records),
    decreases records.len(),
{
    if records.len() == 0 {
        assert(t.rows() + decoded_all(records) =~= t.rows());
    } else {
        let before = records.drop_last();
        lemma_round_trip(t, before);
        lemma_inserted(t.inserted_all(before), records.last());
        assert(t.rows() + decoded_all(records) =~= (t.rows() + decoded_all(before)).push(
            RowView::decoded(records.last()),
        ));
    }
    lemma_scanned(t.inserted_all(records));
}

/// The empty file opens as a well-formed table without rows.
pub proof fn lemma_opened_empty()
    ensures
        TableView::opened(Seq::empty()).wf(),
        TableView::opened(Seq::empty()).num_rows == 0,
        TableView::opened(Seq::empty()).rows() == Seq::<RowView>::empty(),
{
    lemma_sizes();
    let t = TableView::opened(Seq::empty());
    assert forall|p: int| 0 <= p < TABLE_MAX_PAGES implies #[trigger] t.page_wf(p) by {}
    assert(t.rows() =~= Seq::<RowView>::empty());
}

impl Table {
    /// Opens the table that `file` holds: as many rows as its length has
    /// room for, and no page loaded yet. Only the length of the file is
    /// looked at. A length that stands for more rows than the counter can
    /// hold gives the largest count, which is no well-formed table.
    pub fn db_open(file: FileImage) -> (table: Table)
        ensures
            table@ == TableView::opened(file@),
    {
        let pager = Pager::open(file);
        let rows = pager.file_length / ROW_SIZE as u64;
        let num_rows = if rows <= u32::MAX as u64 {
            rows as u32
        } else {
            u32::MAX
        };
        Table { pager, num_rows }
    }

    /// Writes every resident page that holds a row back to the file, the
    /// full pages first and then the last, partly filled one. Only after
    /// this does the file hold what was inserted.
    pub fn db_close(&mut self)
        requires
            old(self)@.pager.wf(),
            old(self)@.num_rows <= TABLE_MAX_ROWS,
        ensures
            final(self)@ == old(self)@.closed(),
            final(self)@.pager.wf(),
    {
        proof {
            lemma_sizes();
        }
        let num_full_pages = self.num_rows / ROWS_PER_PAGE;
        let mut i: u32 = 0;
        while i < num_full_pages
            invariant
                i <= num_full_pages <= TABLE_MAX_PAGES,
                self.num_rows == old(self).num_rows,
                old(self)@.pager.wf(),
                self@.pager.wf(),
                self@.pager == old(self)@.pager.flushed_below(i as int),
            decreases num_full_pages - i,
        {
            assert(self@.pager.pages[i as int] == self.pager.pages@[i as int]@);
            if !self.pager.pages[i as usize].is_empty() {
                match self.pager.flush(i) {
                    Ok(()) => {},
                    Err(_) => vstd::pervasive::unreached(),
                }
            }
            i += 1;
        }
        let num_add_rows = self.num_rows % ROWS_PER_PAGE;
        if num_add_rows > 0 {
            let page_num = num_full_pages;
            assert(self@.pager.pages[page_num as int] == self.pager.pages@[page_num as int]@);
            if !self.pager.pages[page_num as usize].is_empty() {
                match self.pager.flush(page_num) {
                    Ok(()) => {},
                    Err(_) => vstd::pervasive::unreached(),
                }
            }
        }
    }

    /// The number of pages that hold at least one row.
    fn pages_in_use(&self) -> (count: u32)
        ensures
            count == self@.pages_in_use(),
    {
        proof {
            lemma_sizes();
        }
        if self.num_rows % ROWS_PER_PAGE > 0 {
            self.num_rows / ROWS_PER_PAGE + 1
        } else {
            self.num_rows / ROWS_PER_PAGE
        }
    }

    /// The pieces of the file that the next insert reads.
    pub fn insert_reads(&self) -> (requests: Vec<FileRange>)
        requires
            self@.pager.wf(),
        ensures
            requests@ == self@.insert_reads(),
    {
        let mut requests: Vec<FileRange> = Vec::new();
        if self.num_rows < TABLE_MAX_ROWS {
            let (page_num, _) = self.row_slot(self.num_rows);
            if let Some(range) = self.pager.read_request(page_num) {
                requests.push(range);
                assert(requests@ =~= seq![range]);
            }
        }
        requests
    }

    /// The pieces of the file that a scan reads, in the order of the pages.
    pub fn scan_reads(&self) -> (requests: Vec<FileRange>)
        requires
            self@.pager.wf(),
        ensures
            requests@ == self@.scan_reads(),
    {
        self.pager.reads_below(self.pages_in_use())
    }

    /// The pieces of the file that closing the table writes, in the order
    /// of the pages.
    pub fn close_writes(&self) -> (requests: Vec<FileRange>)
        requires
            self@.pager.wf(),
        ensures
            requests@ == self@.close_writes(),
    {
        self.pager.writes_below(self.pages_in_use())
    }

    /// Tells whether the table is well formed, which is what inserting and
    /// scanning ask for.
    pub fn is_well_formed(&self) -> (ok: bool)
        ensures
            ok == self@.wf(),
    {
        proof {
            lemma_sizes();
        }
        if self.pager.pages.len() != TABLE_MAX_PAGES as usize || self.num_rows > TABLE_MAX_ROWS
            || self.pager.file_length != self.pager.file.len() || self.pager.file_length > (
        TABLE_MAX_PAGES * PAGE_SIZE) as u64 {
            return false;
        }
        let mut p: u32 = 0;
        while p < TABLE_MAX_PAGES
            invariant
                p <= TABLE_MAX_PAGES,
                self.pager.pages@.len() == TABLE_MAX_PAGES,
                self.num_rows <= TABLE_MAX_ROWS,
                self.pager.file_length == self@.pager.file.len(),
                self.pager.file_length <= TABLE_MAX_PAGES * PAGE_SIZE,
                forall|q: int| 0 <= q < p ==> #[trigger] self@.page_wf(q),
                forall|q: int| 0 <= q < p ==> (#[trigger] self@.pager.pages[q]).len() <= PAGE_SIZE,
            decreases TABLE_MAX_PAGES - p,
        {
            proof {
                lemma_sizes();
            }
            assert(self@.pager.pages[p as int] == self.pager.pages@[p as int]@);
            let first = p * ROWS_PER_PAGE;
            let rows: u32 = if self.num_rows <= first {
                0
            } else if self.num_rows - first >= ROWS_PER_PAGE {
                ROWS_PER_PAGE
            } else {
                self.num_rows - first
            };
            let start = (p * PAGE_SIZE) as u64;
            let end: u64 = if start + PAGE_SIZE as u64 <= self.pager.file_length {
                start + PAGE_SIZE as u64
            } else {
                self.pager.file_length
            };
            let held = self.pager.pages[p as usize].len();
            if held > PAGE_SIZE as usize {
                return false;
            }
            let length: u64 = if held > 0 {
                held as u64
            } else if start < self.pager.file_length {
                end - start
            } else {
                0
            };
            assert(rows == self@.rows_on(p as int));
            assert(end == self@.pager.chunk_end(p as int));
            assert(length == self@.pager.content(p as int).len());
            let enough = length >= (rows * ROW_SIZE) as u64 && (rows >= ROWS_PER_PAGE || length == (
            rows * ROW_SIZE) as u64);
            let covers = held == 0 || start + held as u64 >= end;
            if !enough || !covers {
                assert(!self@.page_wf(p as int));
                return false;
            }
            p += 1;
        }
        true
    }

    /// Appends the encoded `row` to page `page_num`.
    pub fn serialize_row(&mut self, row: Row, page_num: u32)
        requires
            old(self)@.pager.wf(),
            page_num < TABLE_MAX_PAGES,
            old(self)@.pager.pages[page_num as int].len() + ROW_SIZE <= PAGE_SIZE,
        ensures
            final(self)@ == old(self)@.appended(page_num as int, row@.encoded()),
            RowView::decoded(row@.encoded()) == row@,
            row@.encoded().len() == ROW_SIZE,
            final(self)@.pager.wf(),
    {
        let bytes = row.encode();
        let slot = page_num as usize;
        assert(self@.pager.pages[slot as int] == self.pager.pages@[slot as int]@);
        self.pager.pages[slot].extend_from_slice(bytes.as_slice());
        assert(self.pager.pages@[slot as int]@ =~= old(self)@.pager.pages[slot as int]
            + row@.encoded());
        assert(self@.pager.pages =~= old(self)@.appended(page_num as int, row@.encoded()).pager.pages);
    }

    /// Decodes the row that starts at `byte_offset` in the slot of page
    /// `page_num`.
    pub fn deserialize_row(&self, page_num: u32, byte_offset: u32) -> (row: Row)
        requires
            self@.pager.wf(),
            page_num < TABLE_MAX_PAGES,
            byte_offset + ROW_SIZE <= self@.pager.pages[page_num as int].len(),
        ensures
            row@ == RowView::decoded(
                self@.pager.pages[page_num as int].subrange(
                    byte_offset as int,
                    byte_offset + ROW_SIZE,
                ),
            ),
    {
        let slot = page_num as usize;
        assert(self@.pager.pages[slot as int] == self.pager.pages@[slot as int]@);
        Row::decode(self.pager.pages[slot].as_slice(), byte_offset as usize)
    }

    /// Appends `row` as the table's last row. A table that holds
    /// `TABLE_MAX_ROWS` rows is full and stays as it is.
    pub fn insert(&mut self, row: Row) -> (r: Result<(), TableFull>)
        requires
            old(self)@.wf(),
        ensures
            final(self)@.wf(),
            old(self)@.num_rows == TABLE_MAX_ROWS ==> r is Err && final(self)@ == old(self)@,
            old(self)@.num_rows < TABLE_MAX_ROWS ==> r is Ok && final(self)@ == old(
                self,
            )@.inserted(row@.encoded()) && final(self)@.rows() == old(self)@.rows().push(row@),
    {
        if self.num_rows >= TABLE_MAX_ROWS {
            return Err(TableFull);
        }
        proof {
            lemma_sizes();
            lemma_loaded(self@, slot_page(self.num_rows as int));
            assert(self@.page_wf(slot_page(self.num_rows as int)));
        }
        let (page_num, _) = self.row_slot(self.num_rows);
        match self.pager.get_page(page_num) {
            Ok(()) => {
                self.serialize_row(row, page_num);
                self.num_rows += 1;
                proof {
                    assert(self@.pager.pages =~= old(self)@.inserted(row@.encoded()).pager.pages);
                    lemma_inserted(old(self)@, row@.encoded());
                }
                Ok(())
            },
            Err(_) => vstd::pervasive::unreached(),
        }
    }

    /// Row `i` of the table. Its page is made resident on the way.
    pub fn row_at(&mut self, i: u32) -> (row: Row)
        requires
            old(self)@.wf(),
            i < old(self)@.num_rows,
        ensures
            row@ == old(self)@.rows()[i as int],
            final(self)@ == old(self)@.loaded(slot_page(i as int)),
            final(self)@.wf(),
            final(self)@.rows() == old(self)@.rows(),
    {
        proof {
            lemma_sizes();
            lemma_loaded(self@, slot_page(i as int));
            assert(self@.page_wf(slot_page(i as int)));
        }
        let (page_num, byte_offset) = self.row_slot(i);
        match self.pager.get_page(page_num) {
            Ok(()) => self.deserialize_row(page_num, byte_offset),
            Err(_) => vstd::pervasive::unreached(),
        }
    }

    /// The rows of the table, in the order in which they were inserted.
    /// Every page that holds a row is resident afterwards.
    pub fn scan(&mut self) -> (rows: Vec<Row>)
        requires
            old(self)@.wf(),
        ensures
            views(rows@) == old(self)@.rows(),
            final(self)@ == old(self)@.scanned(),
            final(self)@.wf(),
            final(self)@.rows() == old(self)@.rows(),
    {
        let mut rows: Vec<Row> = Vec::new();
        let mut i: u32 = 0;
        proof {
            lemma_sizes();
            assert(self@.pager.pages =~= self@.with_rows(0).scanned().pager.pages);
        }
        while i < self.num_rows
            invariant
                i <= self.num_rows,
                old(self)@.wf(),
                self@.wf(),
                self@ == old(self)@.with_rows(i as nat).scanned().with_rows(old(self)@.num_rows),
                self@.rows() == old(self)@.rows(),
                forall|q: int|
                    0 <= q < TABLE_MAX_PAGES ==> self@.pager.content(q) == old(self)@.pager.content(
                        q,
                    ),
                rows@.len() == i,
                forall|k: int| 0 <= k < i ==> (#[trigger] rows@[k])@ == old(self)@.rows()[k],
            decreases self.num_rows - i,
        {
            proof {
                lemma_sizes();
                lemma_loaded(self@, slot_page(i as int));
            }
            let row = self.row_at(i);
            rows.push(row);
            i += 1;
            proof {
                assert(self@.pager.pages =~= old(self)@.with_rows(
                    i as nat,
                ).scanned().pager.pages);
            }
        }
        proof {
            assert(views(rows@) =~= old(self)@.rows());
        }
        rows
    }

    /// The page and the offset in it at which row `row_num` lies. The
    /// address follows from the number of the row alone, and nothing of the
    /// table is touched to find it.
    pub fn row_slot(&self, row_num: u32) -> (slot: (u32, u32))
        ensures
            slot.0 == slot_page(row_num as int),
            slot.1 == slot_offset(row_num as int),
    {
        proof {
            lemma_sizes();
        }
        let page_num = row_num / ROWS_PER_PAGE;
        let row_offset = row_num % ROWS_PER_PAGE;
        let byte_offset = row_offset * ROW_SIZE;
        (page_num, byte_offset)
    }
}

} // verus!

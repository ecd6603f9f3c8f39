//! What closing a table leaves in the file, and what opening that file
//! again gives.

use crate::constants::{lemma_sizes, PAGE_SIZE, ROWS_PER_PAGE, ROW_SIZE, TABLE_MAX_PAGES};
use crate::table::pager::PagerView;
use crate::table::{slot_offset, slot_page, TableView};
use vstd::prelude::*;

verus! {

impl PagerView {
    /// The length of the file after every resident page below `k` was
    /// written back.
    pub open spec fn flushed_len(self, k: int) -> int
        decreases k,
    {
        if k <= 0 {
            self.file.len() as int
        } else {
            let below = self.flushed_len(k - 1);
            let end = (k - 1) * PAGE_SIZE + self.pages[k - 1].len();
            if self.resident(k - 1) && end > below {
                end
            } else {
                below
            }
        }
    }

    /// The byte at offset `j` of the file after every resident page below
    /// `k` was written back: the cache's byte where such a page covers `j`,
    /// else the file's own byte, or zero past its end.
    pub open spec fn flushed_byte(self, k: int, j: int) -> u8 {
        let p = j / (PAGE_SIZE as int);
        if p < k && j - p * PAGE_SIZE < self.pages[p].len() {
            self.pages[p][j - p * PAGE_SIZE]
        } else if j < self.file.len() {
            self.file[j]
        } else {
            0u8
        }
    }
}

/// Writing the resident pages below `k` back leaves the file as
/// `flushed_len` and `flushed_byte` say, and every slot below `k` unloaded.
pub proof fn lemma_flushed_below(pv: PagerView, k: int)
    requires
        pv.wf(),
        0 <= k <= TABLE_MAX_PAGES,
    ensures
        pv.flushed_below(k).wf(),
        pv.flushed_below(k).file_length == pv.file_length,
        pv.flushed_below(k).pages == Seq::new(
            pv.pages.len(),
            |p: int|
                if p < k {
                    Seq::<u8>::empty()
                } else {
                    pv.pages[p]
                },
        ),
        pv.flushed_below(k).file.len() == pv.flushed_len(k),
        pv.flushed_len(k) >= pv.file.len(),
        forall|p: int|
            0 <= p < k && pv.resident(p) ==> p * PAGE_SIZE + (#[trigger] pv.pages[p]).len()
                <= pv.flushed_len(k),
        forall|j: int|
            0 <= j < pv.flushed_len(k) ==> #[trigger] pv.flushed_below(k).file[j]
                == pv.flushed_byte(k, j),
    decreases k,
{
    let after = pv.flushed_below(k);
    let expected = Seq::new(
        pv.pages.len(),
        |p: int|
            if p < k {
                Seq::<u8>::empty()
            } else {
                pv.pages[p]
            },
    );
    if k <= 0 {
        assert(after.pages =~= expected);
    } else {
        lemma_flushed_below(pv, k - 1);
        let before = pv.flushed_below(k - 1);
        let page = pv.pages[k - 1];
        assert(before.pages[k - 1] == page);
        assert(page.len() <= PAGE_SIZE);
        if !pv.resident(k - 1) {
            assert(page =~= Seq::<u8>::empty());
        }
        assert(after.pages =~= expected);
        assert forall|p: int| 0 <= p < after.pages.len() implies (#[trigger] after.pages[p]).len()
            <= PAGE_SIZE by {
            assert(pv.pages[p].len() <= PAGE_SIZE);
        }
        assert forall|j: int| 0 <= j < pv.flushed_len(k) implies #[trigger] after.file[j]
            == pv.flushed_byte(k, j) by {
            let p = j / (PAGE_SIZE as int);
            if j < pv.flushed_len(k - 1) {
                assert(before.file[j] == pv.flushed_byte(k - 1, j));
            }
            if 0 <= p < k - 1 && pv.resident(p) {
                assert(p * PAGE_SIZE + pv.pages[p].len() <= pv.flushed_len(k - 1));
            }
        }
    }
}

/// Writing pages back never shortens the file, and pages below `k` cannot
/// make it longer than `k` pages.
pub proof fn lemma_flushed_len_bounds(pv: PagerView, k: int)
    requires
        pv.wf(),
        0 <= k <= TABLE_MAX_PAGES,
    ensures
        pv.file.len() <= pv.flushed_len(k),
        pv.flushed_len(k) <= pv.file.len() || pv.flushed_len(k) <= k * PAGE_SIZE,
    decreases k,
{
    if k > 0 {
        lemma_flushed_below(pv, k - 1);
        lemma_flushed_len_bounds(pv, k - 1);
        assert(pv.pages[k - 1].len() <= PAGE_SIZE);
    }
}

impl TableView {
    /// The last page that holds a row, in a table that has one.
    pub open spec fn last_page(self) -> int {
        (self.num_rows - 1) / (ROWS_PER_PAGE as int)
    }

    /// The length of the file of a well-formed table after it was closed:
    /// it ends where the last page that holds a row ends.
    pub open spec fn closed_len(self) -> int {
        if self.num_rows == 0 {
            0
        } else {
            self.last_page() * PAGE_SIZE + self.pager.content(self.last_page()).len()
        }
    }

    /// The table that opening the closed table's file gives.
    pub open spec fn reopened(self) -> TableView {
        TableView::opened(self.closed().pager.file)
    }

    /// The length of the closed file stands for exactly the table's rows.
    pub open spec fn persistable(self) -> bool {
        self.closed_len() / (ROW_SIZE as int) == self.num_rows
    }

    /// The last page that holds a row ends with its last row.
    pub open spec fn dense(self) -> bool {
        self.num_rows > 0 ==> self.pager.content(self.last_page()).len() == self.rows_on(
            self.last_page(),
        ) * ROW_SIZE
    }
}

/// In a well-formed table the file ends, at the latest, with the last page
/// that holds a row.
pub proof fn lemma_file_ends_with_rows(t: TableView)
    requires
        t.wf(),
    ensures
        t.num_rows == 0 ==> t.pager.file_length == 0,
        t.num_rows > 0 ==> 0 <= t.last_page() < TABLE_MAX_PAGES && t.pager.file_length <= (
        t.last_page() + 1) * PAGE_SIZE,
        t.num_rows > 0 ==> t.pages_in_use() == t.last_page() + 1,
        t.num_rows == 0 ==> t.pages_in_use() == 0,
{
    lemma_sizes();
    if t.num_rows == 0 {
        assert(t.page_wf(0));
    } else {
        let q = t.last_page();
        if q + 1 < TABLE_MAX_PAGES {
            assert(t.page_wf(q + 1));
        }
    }
}

/// The file of a closed table is as long as `closed_len` says.
pub proof fn lemma_closed_len(t: TableView)
    requires
        t.wf(),
    ensures
        t.closed().pager.file.len() == t.closed_len(),
        t.closed_len() <= TABLE_MAX_PAGES * PAGE_SIZE,
{
    lemma_sizes();
    lemma_file_ends_with_rows(t);
    lemma_flushed_below(t.pager, t.pages_in_use());
    if t.num_rows > 0 {
        let q = t.last_page();
        lemma_flushed_len_bounds(t.pager, q);
        assert(t.page_wf(q));
        assert(t.pager.pages[q].len() <= PAGE_SIZE);
    }
}

/// Closing a table and opening its file again gives at least the table's
/// rows, and the first of them are the table's own, in their order.
pub proof fn lemma_reopened_rows(t: TableView)
    requires
        t.wf(),
    ensures
        t.reopened().num_rows == t.closed_len() / (ROW_SIZE as int),
        t.reopened().num_rows >= t.num_rows,
        t.reopened().with_rows(t.num_rows).rows() == t.rows(),
{
    lemma_sizes();
    lemma_file_ends_with_rows(t);
    lemma_closed_len(t);
    let u = t.pages_in_use();
    lemma_flushed_below(t.pager, u);
    let file = t.closed().pager.file;
    let o = t.reopened();
    if t.num_rows > 0 {
        let q = t.last_page();
        assert(t.page_wf(q));
        assert forall|i: int| 0 <= i < t.num_rows implies o.record(i) == t.record(i) by {
            let p = slot_page(i);
            let off = slot_offset(i);
            assert(t.page_wf(p));
            assert(t.pager.pages[p].len() <= PAGE_SIZE);
            assert forall|x: int| 0 <= x < ROW_SIZE implies o.record(i)[x] == t.record(i)[x] by {
                let j = p * PAGE_SIZE + off + x;
                assert(file[j] == t.pager.flushed_byte(u, j));
                assert(j / (PAGE_SIZE as int) == p);
            }
            assert(o.record(i) =~= t.record(i));
        }
    }
    assert(o.with_rows(t.num_rows).rows() =~= t.rows());
}

/// Persistence: where the closed file's length stands for exactly the
/// table's rows, opening the file again gives a well-formed table with the
/// same number of rows and the same rows in the same order.
pub proof fn lemma_reopened(t: TableView)
    requires
        t.wf(),
        t.persistable(),
    ensures
        t.reopened().wf(),
        t.reopened().num_rows == t.num_rows,
        t.reopened().rows() == t.rows(),
        t.dense() ==> t.reopened().dense(),
{
    lemma_sizes();
    lemma_file_ends_with_rows(t);
    lemma_closed_len(t);
    lemma_reopened_rows(t);
    let o = t.reopened();
    assert(o.with_rows(t.num_rows) == o);
    assert forall|p: int| 0 <= p < TABLE_MAX_PAGES implies #[trigger] o.page_wf(p) by {
        assert(t.page_wf(p));
        if t.num_rows > 0 {
            assert(t.page_wf(t.last_page()));
        }
    }
}

/// The number of rows that the closed file's length stands for is the
/// table's own exactly when the unused ends of the pages before the last
/// one, and what the last page holds beyond its rows, add up to less than
/// a row. For a table whose last page ends with its last row, as it does
/// after every insert, that is so as long as the rows fill no more than
/// fourteen pages.
pub proof fn lemma_persistable(t: TableView)
    requires
        t.wf(),
    ensures
        t.reopened().num_rows == t.num_rows <==> t.persistable(),
        t.num_rows > 0 ==> (t.persistable() <==> (PAGE_SIZE - ROWS_PER_PAGE * ROW_SIZE)
            * t.last_page() + (t.pager.content(t.last_page()).len() - t.rows_on(t.last_page())
            * ROW_SIZE) < ROW_SIZE),
        t.num_rows == 0 ==> t.persistable(),
        t.dense() ==> (t.persistable() <==> t.num_rows <= 14 * ROWS_PER_PAGE),
{
    lemma_sizes();
    lemma_file_ends_with_rows(t);
    lemma_reopened_rows(t);
    if t.num_rows > 0 {
        let q = t.last_page();
        let rows = t.rows_on(q);
        let spare = t.pager.content(q).len() - rows * ROW_SIZE;
        assert(t.page_wf(q));
        assert(t.num_rows == q * ROWS_PER_PAGE + rows);
        assert(t.closed_len() == t.num_rows * 291 + (22 * q + spare));
    }
}

} // verus!

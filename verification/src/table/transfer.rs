//! Which pieces of the file a table depends on: what it reads is all it
//! needs of the file, and what it writes is all it changes.

use crate::constants::{lemma_sizes, PAGE_SIZE, ROW_SIZE, TABLE_MAX_PAGES, TABLE_MAX_ROWS};
use crate::table::file::{same_in, FileRange};
use crate::table::pager::PagerView;
use crate::table::persist::lemma_flushed_below;
use crate::table::{slot_page, TableView};
use vstd::prelude::*;

verus! {

/// Two files hold the same bytes in each of `ranges`.
pub open spec fn agree(a: Seq<u8>, b: Seq<u8>, ranges: Seq<FileRange>) -> bool {
    forall|i: int| 0 <= i < ranges.len() ==> same_in(a, b, #[trigger] ranges[i])
}

impl TableView {
    /// Two tables with the same rows counted, the same page slots and files
    /// of the same length; what the files hold may differ.
    pub open spec fn same_cache(self, other: TableView) -> bool {
        &&& self.num_rows == other.num_rows
        &&& self.pager.pages == other.pager.pages
        &&& self.pager.file_length == other.pager.file_length
        &&& self.pager.file.len() == other.pager.file.len()
    }
}

/// The piece that is read for a page below `k` is among the pieces read for
/// the pages below `k`.
pub proof fn lemma_reads_below_holds(pv: PagerView, k: int, p: int)
    requires
        0 <= p < k,
        pv.read_range(p) is Some,
    ensures
        pv.reads_below(k).contains(pv.read_range(p).unwrap()),
    decreases k,
{
    let range = pv.read_range(p).unwrap();
    if p == k - 1 {
        let all = pv.reads_below(k);
        assert(all[all.len() - 1] == range);
    } else {
        lemma_reads_below_holds(pv, k - 1, p);
        let fewer = pv.reads_below(k - 1);
        let i = choose|i: int| 0 <= i < fewer.len() && fewer[i] == range;
        assert(pv.reads_below(k)[i] == range);
    }
}

/// Tables with the same cache stand for the same bytes at every page whose
/// piece of the file, if one is read for it, is the same in both files.
pub proof fn lemma_same_content(a: TableView, b: TableView, p: int)
    requires
        a.wf(),
        a.same_cache(b),
        0 <= p < TABLE_MAX_PAGES,
        a.pager.read_range(p) matches Some(range) ==> same_in(a.pager.file, b.pager.file, range),
    ensures
        a.pager.content(p) == b.pager.content(p),
        a.pager.read_range(p) == b.pager.read_range(p),
{
    lemma_sizes();
    assert(a.pager.pages[p].len() <= PAGE_SIZE);
}

/// What a scan reads is all that it needs of the file: tables with the same
/// cache, whose files are the same in the pieces that the scan reads, hold
/// the same rows and have the same cache after the scan.
pub proof fn lemma_scan_reads_suffice(a: TableView, b: TableView)
    requires
        a.wf(),
        a.same_cache(b),
        agree(a.pager.file, b.pager.file, a.scan_reads()),
    ensures
        b.wf(),
        b.scan_reads() == a.scan_reads(),
        b.rows() == a.rows(),
        b.scanned().same_cache(a.scanned()),
{
    lemma_sizes();
    let k = a.pages_in_use();
    assert forall|p: int| 0 <= p < k implies a.pager.content(p) == b.pager.content(p)
        && a.pager.read_range(p) == b.pager.read_range(p) by {
        if a.pager.read_range(p) is Some {
            lemma_reads_below_holds(a.pager, k, p);
        }
        lemma_same_content(a, b, p);
    }
    lemma_same_reads_below(a.pager, b.pager, k);
    assert forall|p: int| 0 <= p < TABLE_MAX_PAGES implies #[trigger] b.page_wf(p) by {
        assert(a.page_wf(p));
        if p >= k {
            assert(a.rows_on(p) == 0);
            assert(a.pager.content(p).len() == 0);
            assert(a.pager.read_range(p) is None);
            lemma_same_content(a, b, p);
        }
    }
    assert(b.rows() =~= a.rows());
    assert(b.scanned().pager.pages =~= a.scanned().pager.pages);
}

/// Pagers that ask for the same piece at every page below `k` ask for the
/// same pieces below `k`.
pub proof fn lemma_same_reads_below(a: PagerView, b: PagerView, k: int)
    requires
        forall|p: int| 0 <= p < k ==> a.read_range(p) == b.read_range(p),
    ensures
        a.reads_below(k) == b.reads_below(k),
    decreases k,
{
    if k > 0 {
        lemma_same_reads_below(a, b, k - 1);
    }
}

/// What an insert reads is all that it needs of the file: tables with the
/// same cache, whose files are the same in the piece that the insert reads,
/// have the same cache after the insert.
pub proof fn lemma_insert_reads_suffice(a: TableView, b: TableView, record: Seq<u8>)
    requires
        a.wf(),
        a.same_cache(b),
        a.num_rows < TABLE_MAX_ROWS,
        agree(a.pager.file, b.pager.file, a.insert_reads()),
    ensures
        b.insert_reads() == a.insert_reads(),
        b.inserted(record).same_cache(a.inserted(record)),
{
    lemma_sizes();
    let p = slot_page(a.num_rows as int);
    if a.pager.read_range(p) is Some {
        assert(a.insert_reads()[0] == a.pager.read_range(p).unwrap());
    }
    lemma_same_content(a, b, p);
}

/// What closing writes is all that it changes: each resident page that
/// holds a row stands in the file at its place, and every byte outside
/// those pieces is the file's own, or zero past its old end.
pub proof fn lemma_close_writes(t: TableView)
    requires
        t.pager.wf(),
        t.num_rows <= TABLE_MAX_ROWS,
    ensures
        forall|p: int|
            0 <= p < t.pages_in_use() && t.pager.resident(p) ==> #[trigger] t.closed().pager.file.subrange(
                p * PAGE_SIZE,
                p * PAGE_SIZE + t.pager.pages[p].len(),
            ) == t.pager.pages[p],
        forall|j: int|
            0 <= j < t.closed().pager.file.len() ==> #[trigger] t.closed().pager.file[j]
                == t.pager.flushed_byte(t.pages_in_use(), j),
{
    lemma_sizes();
    let k = t.pages_in_use();
    lemma_flushed_below(t.pager, k);
    let file = t.closed().pager.file;
    assert forall|p: int| 0 <= p < k && t.pager.resident(p) implies #[trigger] file.subrange(
        p * PAGE_SIZE,
        p * PAGE_SIZE + t.pager.pages[p].len(),
    ) == t.pager.pages[p] by {
        let page = t.pager.pages[p];
        assert(page.len() <= PAGE_SIZE);
        assert(p * PAGE_SIZE + page.len() <= t.pager.flushed_len(k));
        assert forall|x: int| 0 <= x < page.len() implies file[p * PAGE_SIZE + x] == page[x] by {
            let j = p * PAGE_SIZE + x;
            assert(file[j] == t.pager.flushed_byte(k, j));
            assert(j / (PAGE_SIZE as int) == p);
        }
        assert(file.subrange(p * PAGE_SIZE, p * PAGE_SIZE + page.len()) =~= page);
    }
}

/// Pagers with the same page slots write the same pieces below `k`, and
/// leave files of the same length if they started from files of the same
/// length.
pub proof fn lemma_same_writes_below(a: PagerView, b: PagerView, k: int)
    requires
        a.pages == b.pages,
    ensures
        a.writes_below(k) == b.writes_below(k),
        a.file.len() == b.file.len() ==> a.flushed_len(k) == b.flushed_len(k),
    decreases k,
{
    if k > 0 {
        lemma_same_writes_below(a, b, k - 1);
    }
}

/// Closing changes the cache of two tables alike if they have the same
/// cache: what the files hold has no part in it.
pub proof fn lemma_closed_same_cache(a: TableView, b: TableView)
    requires
        a.pager.wf(),
        a.num_rows <= TABLE_MAX_ROWS,
        a.same_cache(b),
    ensures
        b.close_writes() == a.close_writes(),
        b.closed().same_cache(a.closed()),
{
    lemma_sizes();
    let k = a.pages_in_use();
    lemma_same_writes_below(a.pager, b.pager, k);
    lemma_flushed_below(a.pager, k);
    lemma_flushed_below(b.pager, k);
}

} // verus!

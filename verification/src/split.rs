//! Plain splitting of a document into fixed-size page ranges, the
//! arithmetic behind cutting a document into booklet-sized parts
//! without imposing them.

use vstd::prelude::*;

verus! {

/// Cuts `[0, page_count)` into consecutive ranges of `booklet_pages`
/// pages each; the last range is clamped to the page count.  The range
/// count is the least number of whole booklets covering every page.
pub fn split_page_ranges(page_count: u32, booklet_pages: u32) -> (ranges: Vec<(u32, u32)>)
    requires
        booklet_pages >= 1,
    ensures
        forall|i: int|
            0 <= i < ranges@.len() ==> (#[trigger] ranges@[i]).0 == i * booklet_pages
                && ranges@[i].1 == if (i + 1) * booklet_pages < page_count {
                (i + 1) * booklet_pages
            } else {
                page_count as int
            },
        ranges@.len() * booklet_pages >= page_count,
        ranges@.len() >= 1 ==> (ranges@.len() - 1) * booklet_pages < page_count,
        page_count == 0 ==> ranges@.len() == 0,
{
    let mut ranges: Vec<(u32, u32)> = Vec::new();
    let mut page_num: u32 = 0;
    proof {
        assert(ranges@.len() == 0);
        assert(0int * booklet_pages == 0) by (nonlinear_arith);
    }
    while page_num < page_count
        invariant
            booklet_pages >= 1,
            page_num == if ranges@.len() * booklet_pages < page_count {
                ranges@.len() * booklet_pages
            } else {
                page_count as int
            },
            ranges@.len() >= 1 ==> (ranges@.len() - 1) * booklet_pages < page_count,
            forall|i: int|
                0 <= i < ranges@.len() ==> (#[trigger] ranges@[i]).0 == i * booklet_pages
                    && ranges@[i].1 == if (i + 1) * booklet_pages < page_count {
                    (i + 1) * booklet_pages
                } else {
                    page_count as int
                },
        decreases page_count - page_num,
    {
        let ghost n = ranges@.len() as int;
        proof {
            assert((n + 1) * booklet_pages == n * booklet_pages + booklet_pages)
                by (nonlinear_arith);
        }
        let booklet_start: u32 = page_num;
        let booklet_end: u32 = if booklet_pages < page_count - booklet_start {
            booklet_start + booklet_pages
        } else {
            page_count
        };
        ranges.push((booklet_start, booklet_end));
        page_num = booklet_end;
    }
    proof {
        if ranges@.len() * booklet_pages < page_count {
            assert(false);
        }
    }
    ranges
}

} // verus!

//! Listings cut into pages.

use vstd::prelude::*;
use vstd::slice::slice_subrange;

verus! {

/// Position of one page within a paginated listing.
#[derive(Debug, Clone, Copy, PartialEq, Eq, Structural)]
pub struct PageInfo {
    pub index: usize,
    pub total_pages: usize,
}

/// The number of pages that `len` items fill at `size` items a page.
pub open spec fn page_count(len: int, size: int) -> int {
    if size <= 0 {
        0
    } else {
        (len + size - 1) / size
    }
}

/// Where page `i` ends: a full page further, or at the last item.
pub open spec fn page_end(len: int, size: int, i: int) -> int {
    if (i + 1) * size < len {
        (i + 1) * size
    } else {
        len
    }
}

/// Cuts `items` into pages of `size` items, the last page holding what is
/// left. With a page size of zero there are no pages.
pub fn paginate<T>(items: &[T], size: usize) -> (pages: Vec<&[T]>)
    ensures
        pages@.len() == page_count(items@.len() as int, size as int),
        forall|i: int|
            0 <= i < pages@.len() ==> (#[trigger] pages@[i])@ == items@.subrange(
                i * size,
                page_end(items@.len() as int, size as int, i),
            ),
{
    let mut pages: Vec<&[T]> = Vec::new();
    if size == 0 {
        return pages;
    }
    let len = items.len();
    let mut start: usize = 0;
    proof {
        assert(0 * size == 0) by (nonlinear_arith);
        if len == 0 {
            assert((0 + size - 1) / (size as int) == 0) by (nonlinear_arith)
                requires
                    size > 0,
            ;
        }
    }
    while start < len
        invariant
            size > 0,
            len == items@.len(),
            start <= len,
            start < len ==> start == pages@.len() * size,
            start == len ==> pages@.len() == page_count(len as int, size as int),
            forall|i: int|
                0 <= i < pages@.len() ==> (#[trigger] pages@[i])@ == items@.subrange(
                    i * size,
                    page_end(len as int, size as int, i),
                ),
        decreases len - start,
    {
        let ghost n = pages@.len() as int;
        let end: usize = if len - start <= size {
            len
        } else {
            start + size
        };
        proof {
            assert((n + 1) * size == n * size + size) by (nonlinear_arith);
            assert(end == page_end(len as int, size as int, n));
            if end == len {
                assert((len + size - 1) / (size as int) == n + 1) by (nonlinear_arith)
                    requires
                        size > 0,
                        n * size < len,
                        len <= n * size + size,
                ;
            }
        }
        pages.push(slice_subrange(items, start, end));
        start = end;
    }
    pages
}

/// The indices of the page before and the page after `info`, where they exist.
pub fn neighbors(info: PageInfo) -> (r: (Option<usize>, Option<usize>))
    ensures
        r.0 == (if info.index > 0 {
            Some((info.index - 1) as usize)
        } else {
            None::<usize>
        }),
        r.1 == (if info.index + 1 < info.total_pages {
            Some((info.index + 1) as usize)
        } else {
            None::<usize>
        }),
{
    let prev = if info.index > 0 {
        Some(info.index - 1)
    } else {
        None
    };
    let next = if info.index < info.total_pages && info.index + 1 < info.total_pages {
        Some(info.index + 1)
    } else {
        None
    };
    (prev, next)
}

} // verus!

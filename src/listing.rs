//! Pages of the macro list.

use vstd::prelude::*;

verus! {

/// The number of macros shown on one page.
pub const PAGE_SIZE: usize = 25;

/// The number of pages that `total` macros fill.
pub fn page_count(total: usize) -> (r: usize)
    ensures
        r as int == (total as int + PAGE_SIZE - 1) / PAGE_SIZE as int,
{
    total / PAGE_SIZE + if total % PAGE_SIZE == 0 { 0 } else { 1 }
}

/// The positions `[start, end)` of the macros shown on `page`, or `None` where
/// there is no such page.
pub fn page_bounds(total: usize, page: usize) -> (r: Option<(usize, usize)>)
    ensures
        page as int * PAGE_SIZE < total ==> r == Some(
            (
                (page * PAGE_SIZE) as usize,
                if (page + 1) * PAGE_SIZE < total { ((page + 1) * PAGE_SIZE) as usize } else { total },
            ),
        ),
        page as int * PAGE_SIZE >= total ==> r is None,
{
    if page >= page_count(total) {
        return None;
    }
    let start = page * PAGE_SIZE;
    let end = if total - start > PAGE_SIZE { start + PAGE_SIZE } else { total };
    Some((start, end))
}

/// The page after `page`, back to the first after the last.
pub fn next_page(page: usize, pages: usize) -> (r: usize)
    ensures
        r == if page as int + 1 >= pages { 0 } else { page + 1 },
{
    if page >= pages || page + 1 >= pages {
        0
    } else {
        page + 1
    }
}

/// The page before `page`, on to the last before the first.
pub fn previous_page(page: usize, pages: usize) -> (r: usize)
    ensures
        r == if page > 0 { (page - 1) as usize } else if pages > 0 { (pages - 1) as usize } else { 0 },
{
    if page > 0 {
        page - 1
    } else if pages > 0 {
        pages - 1
    } else {
        0
    }
}

} // verus!

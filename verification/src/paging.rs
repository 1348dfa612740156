//! Pages of twenty-five: where a page begins, how many pages a count makes,
//! and what the pages of a list hold together.

use vstd::prelude::*;

verus! {

/// The number of records on a full page.
pub const PAGE_SIZE: i64 = 25;

/// How many records stand before page `page`, pages being counted from 1.
pub open spec fn page_offset(page: int) -> int {
    25 * (page - 1)
}

/// The part of `items` that starts `offset` items in and holds `limit` items,
/// or as many as are left.
pub open spec fn window<A>(items: Seq<A>, offset: int, limit: int) -> Seq<A>
    recommends
        offset >= 0,
        limit >= 0,
{
    let from = if offset < items.len() {
        offset
    } else {
        items.len() as int
    };
    let to = if offset + limit < items.len() {
        offset + limit
    } else {
        items.len() as int
    };
    items.subrange(from, to)
}

/// Page `page` of `items`.
pub open spec fn page_of<A>(items: Seq<A>, page: int) -> Seq<A>
    recommends
        page >= 1,
{
    window(items, page_offset(page), 25)
}

/// The page count that is shown for `count` matches: the number of full
/// pages and one more. Where `count` is a multiple of 25 and not zero, the
/// last of these pages is empty.
pub open spec fn spec_total_pages(count: int) -> int
    recommends
        count >= 0,
{
    count / 25 + 1
}

/// The number of pages that hold a record when `count` records are paged.
pub open spec fn spec_filled_pages(count: int) -> int
    recommends
        count >= 0,
{
    (count + 24) / 25
}

/// Pages 1 to `pages` of `items`, one after the other.
pub open spec fn pages_joined<A>(items: Seq<A>, pages: int) -> Seq<A>
    decreases pages,
{
    if pages <= 0 {
        Seq::<A>::empty()
    } else {
        pages_joined(items, pages - 1) + page_of(items, pages)
    }
}

/// The page count shown for `count` matches. It is deliberately one more than
/// the number of full pages, so 25 matches are shown as 2 pages.
pub fn total_pages(count: i64) -> (pages: i64)
    requires
        count >= 0,
    ensures
        pages == spec_total_pages(count as int),
{
    count / PAGE_SIZE + 1
}

/// The number of pages that hold a record when `count` records are paged.
pub fn filled_pages(count: i64) -> (pages: i64)
    requires
        count >= 0,
    ensures
        pages == spec_filled_pages(count as int),
{
    if count % PAGE_SIZE == 0 {
        count / PAGE_SIZE
    } else {
        count / PAGE_SIZE + 1
    }
}

/// How many records stand before page `page`: `None` where `page` is not
/// positive, or where the number does not fit the type.
pub fn offset_of_page(page: i64) -> (offset: Option<i64>)
    ensures
        offset is Some <==> 1 <= page && page_offset(page as int) <= i64::MAX,
        offset is Some ==> offset->0 == page_offset(page as int),
{
    if page < 1 || page - 1 > i64::MAX / PAGE_SIZE {
        None
    } else {
        Some(PAGE_SIZE * (page - 1))
    }
}

/// The first `pages` pages of a list, joined, are its first `25 * pages`
/// items, or all of it where it has fewer.
pub proof fn lemma_pages_joined_is_prefix<A>(items: Seq<A>, pages: int)
    requires
        pages >= 0,
    ensures
        pages_joined(items, pages) == window(items, 0, 25 * pages),
    decreases pages,
{
    if pages == 0 {
        assert(pages_joined(items, pages) =~= window(items, 0, 25 * pages));
    } else {
        lemma_pages_joined_is_prefix(items, pages - 1);
        assert(pages_joined(items, pages) =~= window(items, 0, 25 * pages));
    }
}

/// Paging loses nothing and repeats nothing: the pages of a list from the
/// first to the last that holds an item, joined in order, are the list.
pub proof fn lemma_pages_cover<A>(items: Seq<A>)
    ensures
        pages_joined(items, spec_filled_pages(items.len() as int)) == items,
{
    let pages = spec_filled_pages(items.len() as int);
    lemma_pages_joined_is_prefix(items, pages);
    assert(window(items, 0, 25 * pages) =~= items);
}

/// Every page before the last that holds an item is full; the last holds
/// what is left over of `25`, or 25 where nothing is left over.
pub proof fn lemma_page_sizes<A>(items: Seq<A>, page: int)
    requires
        1 <= page <= spec_filled_pages(items.len() as int),
    ensures
        page < spec_filled_pages(items.len() as int) ==> page_of(items, page).len() == 25,
        page == spec_filled_pages(items.len() as int) ==> page_of(items, page).len() == (if items.len()
            % 25 == 0 {
            25
        } else {
            items.len() % 25
        }),
{
}

/// No page after the last that holds an item holds one.
pub proof fn lemma_later_pages_empty<A>(items: Seq<A>, page: int)
    requires
        page > spec_filled_pages(items.len() as int),
    ensures
        page_of(items, page).len() == 0,
{
}

/// The shown page count is the number of pages that hold an item, except
/// where the count is a multiple of 25: there it is one more.
pub proof fn lemma_total_pages_against_filled(count: int)
    requires
        count >= 0,
    ensures
        spec_total_pages(count) == (if count % 25 == 0 {
            spec_filled_pages(count) + 1
        } else {
            spec_filled_pages(count)
        }),
{
}

} // verus!

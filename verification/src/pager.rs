//! Collecting a list that comes in pages.
use vstd::prelude::*;

verus! {

/// The largest page that can be asked for.
pub const MAX_PAGE_SIZE: usize = 100;

/// The size of the first page to ask for where `max_results` items are wanted, if a size is to be
/// given.
pub fn first_page_size(max_results: usize) -> (size: Option<usize>)
    ensures
        size == if max_results <= MAX_PAGE_SIZE {
            Some(max_results)
        } else {
            None
        },
        size is Some <==> max_results <= 100,
        size matches Some(n) ==> n == max_results,
{
    if max_results <= MAX_PAGE_SIZE {
        Some(max_results)
    } else {
        None
    }
}

/// What has been collected, and whether more pages are wanted.
pub struct Collected<T> {
    pub items: Seq<T>,
    pub wants_more: bool,
}

/// What has been collected after the first page. More pages are wanted if it holds fewer items
/// than are wanted.
pub open spec fn after_first_page<T>(page: Seq<T>, max_results: int) -> Collected<T> {
    Collected { items: page, wants_more: page.len() < max_results }
}

/// What has been collected after a further page, or after it turned out that there is none.
pub open spec fn after_page<T>(collected: Collected<T>, page: Option<Seq<T>>) -> Collected<T> {
    match page {
        Some(page) => Collected { items: collected.items + page, wants_more: true },
        None => Collected { items: collected.items, wants_more: false },
    }
}

/// A list on its way in.
pub struct PageCollector<T> {
    items: Vec<T>,
    wants_more: bool,
}

impl<T> View for PageCollector<T> {
    type V = Collected<T>;

    closed spec fn view(&self) -> Collected<T> {
        Collected { items: self.items@, wants_more: self.wants_more }
    }
}

impl<T> PageCollector<T> {
    /// Begins with the first page of a list of which `max_results` items are wanted.
    pub fn start(page: Vec<T>, max_results: usize) -> (collector: PageCollector<T>)
        ensures
            collector@ == after_first_page(page@, max_results as int),
            collector@.items == page@,
            collector@.wants_more <==> page@.len() < max_results,
    {
        let wants_more = page.len() < max_results;
        PageCollector { items: page, wants_more }
    }

    /// Whether the next page is to be fetched.
    pub fn wants_more(&self) -> (wants_more: bool)
        ensures
            wants_more == self@.wants_more,
    {
        self.wants_more
    }

    /// Takes in the next page, or that there is none.
    pub fn add_page(&mut self, page: Option<Vec<T>>)
        requires
            old(self)@.wants_more,
        ensures
            final(self)@ == after_page(
                old(self)@,
                match page {
                    Some(page) => Some(page@),
                    None => None,
                },
            ),
            page matches Some(page) ==> final(self)@.items == old(self)@.items + page@
                && final(self)@.wants_more,
            page is None ==> final(self)@.items == old(self)@.items && !final(self)@.wants_more,
    {
        match page {
            Some(page) => {
                let mut page = page;
                self.items.append(&mut page);
            },
            None => {
                self.wants_more = false;
            },
        }
    }

    /// The items that came in.
    pub fn into_items(self) -> (items: Vec<T>)
        ensures
            items@ == self@.items,
    {
        self.items
    }
}

/// What has been collected after several pages.
pub open spec fn after_pages<T>(collected: Collected<T>, pages: Seq<Seq<T>>) -> Collected<T>
    decreases pages.len(),
{
    if pages.len() == 0 {
        collected
    } else {
        after_pages(after_page(collected, Some(pages[0])), pages.drop_first())
    }
}

/// Several pages add their items in order.
proof fn lemma_after_pages<T>(collected: Collected<T>, pages: Seq<Seq<T>>)
    requires
        collected.wants_more,
    ensures
        after_pages(collected, pages) == (Collected {
            items: collected.items + pages.flatten(),
            wants_more: true,
        }),
    decreases pages.len(),
{
    if pages.len() == 0 {
        assert(collected.items + pages.flatten() == collected.items);
    } else {
        lemma_after_pages(after_page(collected, Some(pages[0])), pages.drop_first());
        assert(collected.items + pages[0] + pages.drop_first().flatten() == collected.items
            + pages.flatten());
    }
}

/// Where the first page holds as many items as are wanted, it is all that is collected.
pub proof fn law_enough_items_end_the_list<T>(page: Seq<T>, max_results: int)
    requires
        page.len() >= max_results,
    ensures
        after_first_page(page, max_results) == (Collected { items: page, wants_more: false }),
{
}

/// Where the first page holds fewer items than are wanted, all further pages are collected, to the
/// last one.
pub proof fn law_all_further_pages_are_collected<T>(
    page: Seq<T>,
    max_results: int,
    further: Seq<Seq<T>>,
)
    requires
        page.len() < max_results,
    ensures
        after_pages(after_first_page(page, max_results), further).wants_more,
        after_page(after_pages(after_first_page(page, max_results), further), None) == (Collected {
            items: page + further.flatten(),
            wants_more: false,
        }),
{
    lemma_after_pages(after_first_page(page, max_results), further);
}

/// A further page adds its items behind those that came before; that there is none ends the list.
pub proof fn law_pages_follow_one_another<T>(collected: Collected<T>, page: Seq<T>)
    ensures
        after_page(collected, Some(page)).items == collected.items + page,
        after_page(collected, Some(page)).wants_more,
        after_page(collected, None).items == collected.items,
        !after_page(collected, None).wants_more,
{
}

} // verus!

//! Listing the eventually-consistent account sets, page by page.

use crate::primitives::AccountSetId;
use crate::projector::mappings::EcSetIds;
use vstd::prelude::*;

verus! {

/// The number of ids on a page.
pub const PAGE_SIZE: usize = 100;

/// A request for the `first` ids after a cursor.
#[derive(Debug)]
pub struct PageQuery<C> {
    pub first: usize,
    pub after: Option<C>,
}

/// A page of ids.
pub struct EcSetPage<C> {
    pub ids: Vec<AccountSetId>,
    pub has_next_page: bool,
    pub end_cursor: Option<C>,
}

/// Collects the ids of all pages.
pub struct EcSetListing<C> {
    ids: EcSetIds,
    query: Option<PageQuery<C>>,
}

impl<C> EcSetListing<C> {
    /// The ids on the pages so far.
    pub closed spec fn ids(&self) -> Set<AccountSetId> {
        self.ids@
    }

    /// The page to ask for next, if any is left.
    pub closed spec fn query(&self) -> Option<PageQuery<C>> {
        self.query
    }

    /// A listing before its first page.
    pub fn new() -> (listing: EcSetListing<C>)
        ensures
            listing.ids() == Set::<AccountSetId>::empty(),
            listing.query() == Some(PageQuery::<C> { first: PAGE_SIZE, after: None }),
    {
        EcSetListing {
            ids: EcSetIds::new(),
            query: Some(PageQuery { first: PAGE_SIZE, after: None }),
        }
    }

    /// Takes the page to ask for next; `None` once there is none left.
    pub fn take_query(&mut self) -> (query: Option<PageQuery<C>>)
        ensures
            query == old(self).query(),
            final(self).query() is None,
            final(self).ids() == old(self).ids(),
    {
        self.query.take()
    }

    /// The page has arrived.
    pub fn on_page(&mut self, page: EcSetPage<C>)
        ensures
            final(self).ids() == old(self).ids().union(page.ids@.to_set()),
            final(self).query() == if page.has_next_page {
                Some(PageQuery { first: PAGE_SIZE, after: page.end_cursor })
            } else {
                None
            },
    {
        for i in 0..page.ids.len()
            invariant
                self.ids@ == old(self).ids@.union(page.ids@.take(i as int).to_set()),
        {
            self.ids.insert(page.ids[i]);
            proof {
                let more = page.ids@.take(i + 1);
                assert(more =~= page.ids@.take(i as int).push(page.ids@[i as int]));
                assert forall|id: AccountSetId| more.to_set().contains(id) <==> (page.ids@.take(
                    i as int,
                ).to_set().contains(id) || id == page.ids@[i as int]) by {
                    if page.ids@.take(i as int).contains(id) {
                        let k = page.ids@.take(i as int).index_of(id);
                        assert(more[k] == id);
                    }
                    if id == page.ids@[i as int] {
                        assert(more[i as int] == id);
                    }
                }
                assert(self.ids@ =~= old(self).ids@.union(more.to_set()));
            }
        }
        proof {
            assert(page.ids@.take(page.ids@.len() as int) =~= page.ids@);
        }
        self.query = if page.has_next_page {
            Some(PageQuery { first: PAGE_SIZE, after: page.end_cursor })
        } else {
            None
        };
    }

    /// The ids on all the pages.
    pub fn into_ids(self) -> (ids: EcSetIds)
        ensures
            ids@ == self.ids(),
    {
        self.ids
    }
}

} // verus!

//! A search as a machine: it says what to fetch next, takes what came
//! back, and hands out the products in the order of the pages and of the
//! items on each page. Whoever runs it does the fetching and the waiting.

use vstd::prelude::*;
use crate::modules::ebay::{
    listing_from_html, listing_in, Entry, ListingError, Product, ProductView,
};
use crate::decimal::{decimal_text, push_number};
use crate::text::string_of;

verus! {

/// Why a search ended with an error.
#[derive(Clone, Copy, Debug, PartialEq, Eq, Structural)]
pub enum SearchError {
    /// A page of search results could not be fetched.
    FetchError,
    /// A page of search results was fetched and holds no list.
    Listing(ListingError),
}

/// What the search asks for next.
#[derive(Clone, Copy, Debug, PartialEq, Eq, Structural)]
pub enum Request {
    /// Fetch this page of search results. Pages count from 1.
    Listing { page: u64 },
    /// Fetch the page of this item, and answer no sooner than after this
    /// many milliseconds, so that fetches of items keep their distance.
    Item { id: u64, spacing_ms: u64 },
    /// Nothing: the search is over.
    Stop,
}

/// What came back.
#[derive(Debug)]
pub enum Reply {
    /// The items that a page of search results lists, or why there is no
    /// list.
    Listing(Result<Vec<Entry>, SearchError>),
    /// The product on the page of an item, or nothing where the page could
    /// not be fetched or shows no product.
    Item(Option<Product>),
}

pub enum ReplyView {
    Listing(Result<Seq<Entry>, SearchError>),
    Item(Option<ProductView>),
}

impl View for Reply {
    type V = ReplyView;

    open spec fn view(&self) -> ReplyView {
        match self {
            Reply::Listing(Ok(entries)) => ReplyView::Listing(Ok(entries@)),
            Reply::Listing(Err(e)) => ReplyView::Listing(Err(*e)),
            Reply::Item(Some(p)) => ReplyView::Item(Some(p@)),
            Reply::Item(None) => ReplyView::Item(None),
        }
    }
}

/// What the search waits for.
#[derive(Clone, Copy, Debug, PartialEq, Eq, Structural)]
pub enum Waiting {
    Listing,
    Item,
    Nothing,
}

/// The state of a search.
pub struct SearchView {
    /// The page that is being fetched or worked through.
    pub page: u64,
    /// The items of that page.
    pub queue: Seq<Entry>,
    /// How many of them are done.
    pub next: int,
    /// Whether any item has given a product yet, on this page or on an
    /// earlier one. The flag belongs to the whole search and turns at the
    /// first product. It decides what a page without items means: while
    /// nothing was found, that the pages have run out or are no longer
    /// understood, which ends the search; once something was found, only
    /// that this page is empty, and the search goes on to the next.
    pub found: bool,
    pub waiting: Waiting,
    pub spacing_ms: u64,
    /// What is searched for.
    pub query: Seq<char>,
}

/// What a step hands out: at most one result, and the next request.
#[derive(Debug)]
pub struct Step {
    pub emit: Option<Result<Product, SearchError>>,
    pub request: Request,
}

pub open spec fn emit_view(e: Option<Result<Product, SearchError>>) -> Option<
    Result<ProductView, SearchError>,
> {
    match e {
        Some(Ok(p)) => Some(Ok(p@)),
        Some(Err(e)) => Some(Err(e)),
        None => None,
    }
}

impl SearchView {
    pub open spec fn wf(self) -> bool {
        &&& 0 <= self.next <= self.queue.len()
        &&& self.waiting == Waiting::Item ==> self.next < self.queue.len()
    }

    /// A search before its first step.
    pub open spec fn start(query: Seq<char>, spacing_ms: u64) -> SearchView {
        SearchView {
            page: 1,
            queue: Seq::empty(),
            next: 0,
            found: false,
            waiting: Waiting::Listing,
            spacing_ms,
            query,
        }
    }

    /// What the search asks for in this state.
    pub open spec fn request(self) -> Request {
        match self.waiting {
            Waiting::Listing => Request::Listing { page: self.page },
            Waiting::Item => Request::Item {
                id: self.queue[self.next].id,
                spacing_ms: self.spacing_ms,
            },
            Waiting::Nothing => Request::Stop,
        }
    }

    /// The state when the next page is asked for; past the last number of
    /// a page the search is over.
    pub open spec fn next_page(self) -> SearchView {
        if self.page < u64::MAX {
            SearchView {
                page: (self.page + 1) as u64,
                queue: Seq::empty(),
                next: 0,
                waiting: Waiting::Listing,
                ..self
            }
        } else {
            SearchView { waiting: Waiting::Nothing, ..self }
        }
    }

    /// The state after one more item of the page is done: the next item of
    /// the page, or after the last one the next page.
    pub open spec fn advanced(self, found: bool) -> SearchView {
        if self.next + 1 < self.queue.len() {
            SearchView { next: self.next + 1, found, ..self }
        } else {
            (SearchView { found, ..self }).next_page()
        }
    }

    /// The state after a reply. A page without items ends the search while
    /// no product was found yet; once one was found, the search passes on
    /// to the next page, and never asks for the same page again. A page
    /// that could not be had ends the search. A page with items is worked
    /// through item by item, and then the next page is asked for. A reply
    /// that was not asked for changes nothing.
    pub open spec fn after(self, reply: ReplyView) -> SearchView {
        match (self.waiting, reply) {
            (Waiting::Listing, ReplyView::Listing(Ok(entries))) => if entries.len() == 0 {
                if self.found {
                    self.next_page()
                } else {
                    SearchView { waiting: Waiting::Nothing, ..self }
                }
            } else {
                SearchView { queue: entries, next: 0, waiting: Waiting::Item, ..self }
            },
            (Waiting::Listing, ReplyView::Listing(Err(_))) => SearchView {
                waiting: Waiting::Nothing,
                ..self
            },
            (Waiting::Item, ReplyView::Item(Some(_))) => self.advanced(true),
            (Waiting::Item, ReplyView::Item(None)) => self.advanced(self.found),
            _ => self,
        }
    }

    /// What a reply makes the search hand out: the product of an item,
    /// marked as sponsored or not as its page of search results showed it;
    /// the error that ended the search; or nothing. An item that gave no
    /// product is passed over in silence.
    pub open spec fn emitted(self, reply: ReplyView) -> Option<Result<ProductView, SearchError>> {
        match (self.waiting, reply) {
            (Waiting::Listing, ReplyView::Listing(Err(e))) => Some(Err(e)),
            (Waiting::Item, ReplyView::Item(Some(p))) => Some(
                Ok(ProductView { sponsored: Some(self.queue[self.next].sponsored), ..p }),
            ),
            _ => None,
        }
    }
}

/// A search in progress. It owns the number of the page and the flag that
/// tells whether anything was found; both end with it.
#[derive(Debug)]
pub struct Search {
    page: u64,
    queue: Vec<Entry>,
    next: usize,
    found: bool,
    waiting: Waiting,
    spacing_ms: u64,
    query: String,
}

impl View for Search {
    type V = SearchView;

    closed spec fn view(&self) -> SearchView {
        SearchView {
            page: self.page,
            queue: self.queue@,
            next: self.next as int,
            found: self.found,
            waiting: self.waiting,
            spacing_ms: self.spacing_ms,
            query: self.query@,
        }
    }
}

/// The reply that a fetched page of search results makes, or that the
/// failure to fetch it makes.
pub open spec fn page_reply(fetched: Option<Seq<char>>) -> ReplyView {
    match fetched {
        Some(html) => match listing_in(html) {
            Ok(entries) => ReplyView::Listing(Ok(entries)),
            Err(e) => ReplyView::Listing(Err(SearchError::Listing(e))),
        },
        None => ReplyView::Listing(Err(SearchError::FetchError)),
    }
}

/// The number of a page as the parameter `_pgn` of a request for search
/// results carries it; the parameter `_nkw` carries the query.
pub fn page_parameter(page: u64) -> (s: String)
    ensures
        s@ == decimal_text(page as nat),
{
    let mut out: Vec<char> = Vec::new();
    push_number(&mut out, page);
    string_of(&out)
}

impl Reply {
    /// The reply for a page of search results: `Some` with its text where
    /// it was fetched, `None` where it was not.
    pub fn from_page(fetched: Option<&str>) -> (r: Reply)
        ensures
            r@ == page_reply(crate::dom::text_view(fetched)),
    {
        match fetched {
            Some(html) => match listing_from_html(html) {
                Ok(entries) => Reply::Listing(Ok(entries)),
                Err(e) => Reply::Listing(Err(SearchError::Listing(e))),
            },
            None => Reply::Listing(Err(SearchError::FetchError)),
        }
    }
}

impl Search {
    #[verifier::type_invariant]
    spec fn well_formed(self) -> bool {
        self@.wf()
    }

    /// A search for `query` that keeps `spacing_ms` milliseconds between
    /// the fetches of two items.
    pub fn new(query: &str, spacing_ms: u64) -> (s: Search)
        ensures
            s@ == SearchView::start(query@, spacing_ms),
    {
        Search {
            page: 1,
            queue: Vec::new(),
            next: 0,
            found: false,
            waiting: Waiting::Listing,
            spacing_ms,
            query: query.to_owned(),
        }
    }

    /// What is searched for.
    pub fn query(&self) -> (q: &str)
        ensures
            q@ == self@.query,
    {
        self.query.as_str()
    }

    /// What the search asks for now.
    pub fn request(&self) -> (r: Request)
        ensures
            r == self@.request(),
            self@.wf(),
    {
        proof {
            use_type_invariant(self);
        }
        match self.waiting {
            Waiting::Listing => Request::Listing { page: self.page },
            Waiting::Item => Request::Item {
                id: self.queue[self.next].id,
                spacing_ms: self.spacing_ms,
            },
            Waiting::Nothing => Request::Stop,
        }
    }

    /// Whether any item has given a product yet.
    pub fn found_any(&self) -> (r: bool)
        ensures
            r == self@.found,
    {
        self.found
    }

    /// Whether the search is over.
    pub fn is_over(&self) -> (r: bool)
        ensures
            r == (self@.waiting == Waiting::Nothing),
    {
        match self.waiting {
            Waiting::Nothing => true,
            _ => false,
        }
    }

    fn turn_page(&mut self)
        requires
            old(self)@.wf(),
        ensures
            final(self)@ == old(self)@.next_page(),
            final(self)@.wf(),
    {
        if self.page < u64::MAX {
            self.waiting = Waiting::Listing;
            self.next = 0;
            self.queue = Vec::new();
            self.page = self.page + 1;
        } else {
            self.waiting = Waiting::Nothing;
        }
    }

    fn advance(&mut self, found: bool)
        requires
            old(self)@.wf(),
            old(self)@.waiting == Waiting::Item,
        ensures
            final(self)@ == old(self)@.advanced(found),
            final(self)@.wf(),
    {
        let items = self.queue.len();
        let done = self.next + 1;
        self.found = found;
        if done < items {
            self.next = done;
        } else {
            self.turn_page();
        }
    }

    /// Takes a reply, and hands out what it yields and the next request.
    pub fn step(&mut self, reply: Reply) -> (step: Step)
        ensures
            final(self)@ == old(self)@.after(reply@),
            emit_view(step.emit) == old(self)@.emitted(reply@),
            step.request == final(self)@.request(),
            final(self)@.wf(),
    {
        proof {
            use_type_invariant(&*self);
        }
        let mut emit: Option<Result<Product, SearchError>> = None;
        match self.waiting {
            Waiting::Listing => {
                match reply {
                    Reply::Listing(Ok(entries)) => {
                        if entries.len() == 0 {
                            if self.found {
                                self.turn_page();
                            } else {
                                self.waiting = Waiting::Nothing;
                            }
                        } else {
                            self.next = 0;
                            self.queue = entries;
                            self.waiting = Waiting::Item;
                        }
                    },
                    Reply::Listing(Err(e)) => {
                        self.waiting = Waiting::Nothing;
                        emit = Some(Err(e));
                    },
                    Reply::Item(_) => {},
                }
            },
            Waiting::Item => {
                match reply {
                    Reply::Item(Some(product)) => {
                        let sponsored = self.queue[self.next].sponsored;
                        let Product { name, seller, price, sponsored: _ } = product;
                        emit = Some(Ok(Product { name, seller, price, sponsored: Some(sponsored) }));
                        self.advance(true);
                    },
                    Reply::Item(None) => {
                        let found = self.found;
                        self.advance(found);
                    },
                    Reply::Listing(_) => {},
                }
            },
            Waiting::Nothing => {},
        }
        let request = self.request();
        Step { emit, request }
    }
}

impl Product {
    /// A search for the products that match `query`. The search waits 600
    /// milliseconds between two items, to be gentle with the site.
    pub fn search(query: &str) -> (s: Search)
        ensures
            s@ == SearchView::start(query@, 600),
    {
        Search::new(query, 600)
    }
}

/// What a search hands out, in order, while it takes these replies one
/// after the other.
pub open spec fn run(s: SearchView, replies: Seq<ReplyView>) -> Seq<Result<ProductView, SearchError>>
    decreases replies.len(),
{
    if replies.len() == 0 {
        Seq::empty()
    } else {
        let rest = run(s.after(replies[0]), replies.drop_first());
        match s.emitted(replies[0]) {
            Some(r) => seq![r] + rest,
            None => rest,
        }
    }
}

/// The state of a search after it took these replies.
pub open spec fn after_all(s: SearchView, replies: Seq<ReplyView>) -> SearchView
    decreases replies.len(),
{
    if replies.len() == 0 {
        s
    } else {
        after_all(s.after(replies[0]), replies.drop_first())
    }
}

/// The replies for the items of a page from item `k` on.
pub open spec fn item_replies(details: Seq<Option<ProductView>>, k: int) -> Seq<ReplyView> {
    Seq::new((details.len() - k) as nat, |i: int| ReplyView::Item(details[k + i]))
}

/// What the items of a page yield from item `k` on: each product that was
/// had, in the order of the page, marked as its entry says.
pub open spec fn yields(queue: Seq<Entry>, details: Seq<Option<ProductView>>, k: int) -> Seq<
    Result<ProductView, SearchError>,
>
    decreases details.len() - k,
{
    if k < 0 || k >= details.len() {
        Seq::empty()
    } else {
        match details[k] {
            Some(p) => seq![
                Ok::<ProductView, SearchError>(
                    ProductView { sponsored: Some(queue[k].sponsored), ..p },
                ),
            ] + yields(queue, details, k + 1),
            None => yields(queue, details, k + 1),
        }
    }
}

/// A step keeps a state well formed.
pub proof fn lemma_after_keeps_wf(s: SearchView, reply: ReplyView)
    requires
        s.wf(),
    ensures
        s.after(reply).wf(),
{
}

/// Replies taken in two parts give what the first part gives, then what
/// the second part gives from the state that the first part left.
pub proof fn lemma_run_in_parts(s: SearchView, first: Seq<ReplyView>, second: Seq<ReplyView>)
    ensures
        run(s, first + second) == run(s, first) + run(after_all(s, first), second),
        after_all(s, first + second) == after_all(after_all(s, first), second),
    decreases first.len(),
{
    if first.len() == 0 {
        assert(first + second == second);
    } else {
        let all = first + second;
        assert(all[0] == first[0]);
        assert(all.drop_first() == first.drop_first() + second);
        lemma_run_in_parts(s.after(first[0]), first.drop_first(), second);
    }
}

/// A search that is over stays over and hands out nothing more.
pub proof fn lemma_over_is_over(s: SearchView, replies: Seq<ReplyView>)
    requires
        s.waiting == Waiting::Nothing,
    ensures
        run(s, replies) == Seq::<Result<ProductView, SearchError>>::empty(),
        after_all(s, replies) == s,
        s.request() == Request::Stop,
    decreases replies.len(),
{
    if replies.len() > 0 {
        lemma_over_is_over(s, replies.drop_first());
    }
}

/// While no product was found, a page of search results without items
/// ends the search: nothing is handed out for it or after it, no item is
/// asked for, and the next request is to stop. So it is on the first page.
pub proof fn lemma_empty_page_ends_search(s: SearchView, rest: Seq<ReplyView>)
    requires
        s.waiting == Waiting::Listing,
        !s.found,
    ensures
        run(s, seq![ReplyView::Listing(Ok(Seq::<Entry>::empty()))] + rest) == Seq::<
            Result<ProductView, SearchError>,
        >::empty(),
        s.after(ReplyView::Listing(Ok(Seq::<Entry>::empty()))).request() == Request::Stop,
        after_all(s, seq![ReplyView::Listing(Ok(Seq::<Entry>::empty()))] + rest).request()
            == Request::Stop,
{
    let empty = ReplyView::Listing(Ok(Seq::<Entry>::empty()));
    let all = seq![empty] + rest;
    assert(all[0] == empty);
    assert(all.drop_first() == rest);
    lemma_over_is_over(s.after(empty), rest);
}

/// Once a product was found, a page of search results without items is
/// passed by: nothing is handed out for it, and the next request is for
/// the page after it. No page is asked for twice.
pub proof fn lemma_empty_page_is_passed_by(s: SearchView)
    requires
        s.waiting == Waiting::Listing,
        s.found,
        s.page < u64::MAX,
    ensures
        s.emitted(ReplyView::Listing(Ok(Seq::<Entry>::empty()))) is None,
        s.after(ReplyView::Listing(Ok(Seq::<Entry>::empty()))).request() == (Request::Listing {
            page: (s.page + 1) as u64,
        }),
        s.after(ReplyView::Listing(Ok(Seq::<Entry>::empty()))).found,
{
}

/// A page of search results that could not be had ends the search with
/// its error, whatever came before: the error is the last thing handed
/// out.
pub proof fn lemma_failed_page_ends_search(s: SearchView, e: SearchError, rest: Seq<ReplyView>)
    requires
        s.waiting == Waiting::Listing,
    ensures
        run(s, seq![ReplyView::Listing(Err(e))] + rest) == seq![
            Err::<ProductView, SearchError>(e),
        ],
        after_all(s, seq![ReplyView::Listing(Err(e))] + rest).request() == Request::Stop,
{
    let failed = ReplyView::Listing(Err(e));
    let all = seq![failed] + rest;
    assert(all[0] == failed);
    assert(all.drop_first() == rest);
    lemma_over_is_over(s.after(failed), rest);
    assert(run(s, all) =~= seq![Err::<ProductView, SearchError>(e)]);
}

/// Whether any of the items from `k` on gave a product.
pub open spec fn any_product(details: Seq<Option<ProductView>>, k: int) -> bool {
    exists|n: int| k <= n < details.len() && (#[trigger] details[n]) is Some
}

/// The items of a page, worked through from item `k` on, give the products
/// that were had, in the order of the page, and leave the search asking for
/// the next page, with the flag set where a product was had.
pub proof fn lemma_items_in_order(s: SearchView, details: Seq<Option<ProductView>>)
    requires
        s.wf(),
        s.waiting == Waiting::Item,
        details.len() == s.queue.len(),
        s.page < u64::MAX,
    ensures
        run(s, item_replies(details, s.next)) == yields(s.queue, details, s.next),
        after_all(s, item_replies(details, s.next)).waiting == Waiting::Listing,
        after_all(s, item_replies(details, s.next)).page == s.page + 1,
        after_all(s, item_replies(details, s.next)).found == (s.found || any_product(
            details,
            s.next,
        )),
        after_all(s, item_replies(details, s.next)).wf(),
    decreases details.len() - s.next,
{
    let k = s.next;
    let replies = item_replies(details, k);
    assert(replies[0] == ReplyView::Item(details[k]));
    let then = s.after(replies[0]);
    let later = replies.drop_first();
    assert(after_all(s, replies) == after_all(then, later));
    if k + 1 < details.len() {
        assert(later =~= item_replies(details, k + 1));
        lemma_items_in_order(then, details);
    } else {
        assert(later =~= Seq::<ReplyView>::empty());
        assert(run(then, later) == Seq::<Result<ProductView, SearchError>>::empty());
        assert(after_all(then, later) == then);
        assert(yields(s.queue, details, k + 1) == Seq::<Result<ProductView, SearchError>>::empty());
    }
    assert(any_product(details, k) == (details[k] is Some || any_product(details, k + 1))) by {
        if any_product(details, k) {
            let n = choose|n: int| k <= n < details.len() && (#[trigger] details[n]) is Some;
            if n > k {
                assert(any_product(details, k + 1));
            }
        }
        if any_product(details, k + 1) {
            let n = choose|n: int| k + 1 <= n < details.len() && (#[trigger] details[n]) is Some;
            assert(k <= n < details.len() && details[n] is Some);
        }
    }
    match details[k] {
        Some(p) => {
            assert(run(s, replies) == seq![s.emitted(replies[0])->0] + run(then, later));
        },
        None => {
            assert(run(s, replies) == run(then, later));
        },
    }
}

/// A search whose first page lists items and whose second page lists none
/// hands out the products of the first page, in the order of that page.
/// Where none of the items gave a product, the search is then over; where
/// one did, it asks for the third page. The second page is looked at once
/// either way.
pub proof fn lemma_second_page_without_items(
    query: Seq<char>,
    spacing_ms: u64,
    entries: Seq<Entry>,
    details: Seq<Option<ProductView>>,
)
    requires
        entries.len() > 0,
        details.len() == entries.len(),
    ensures
        run(
            SearchView::start(query, spacing_ms),
            seq![ReplyView::Listing(Ok(entries))] + item_replies(details, 0) + seq![
                ReplyView::Listing(Ok(Seq::<Entry>::empty())),
            ],
        ) == yields(entries, details, 0),
        after_all(
            SearchView::start(query, spacing_ms),
            seq![ReplyView::Listing(Ok(entries))] + item_replies(details, 0) + seq![
                ReplyView::Listing(Ok(Seq::<Entry>::empty())),
            ],
        ).request() == if any_product(details, 0) {
            Request::Listing { page: 3 }
        } else {
            Request::Stop
        },
{
    let start = SearchView::start(query, spacing_ms);
    let page = seq![ReplyView::Listing(Ok(entries))];
    let items = item_replies(details, 0);
    let empty = ReplyView::Listing(Ok(Seq::<Entry>::empty()));
    let end = seq![empty];
    assert(page + items + end =~= page + (items + end));
    lemma_run_in_parts(start, page, items + end);
    assert(page.drop_first() =~= Seq::<ReplyView>::empty());
    let first = start.after(page[0]);
    assert(after_all(first, page.drop_first()) == first);
    assert(after_all(start, page) == first);
    assert(run(first, page.drop_first()) == Seq::<Result<ProductView, SearchError>>::empty());
    assert(run(start, page) =~= Seq::<Result<ProductView, SearchError>>::empty());
    lemma_run_in_parts(first, items, end);
    lemma_items_in_order(first, details);
    let second = after_all(first, items);
    assert(end[0] == empty);
    assert(end.drop_first() =~= Seq::<ReplyView>::empty());
    let last = second.after(empty);
    assert(after_all(last, end.drop_first()) == last);
    assert(after_all(second, end) == last);
    assert(run(last, end.drop_first()) == Seq::<Result<ProductView, SearchError>>::empty());
    assert(run(second, end) =~= Seq::<Result<ProductView, SearchError>>::empty());
}

} // verus!

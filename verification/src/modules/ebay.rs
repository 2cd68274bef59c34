//! Products of eBay: what an item page says of one product, which items a
//! page of search results lists, and the order in which a search fetches
//! pages and items.

use vstd::prelude::*;
use crate::common::{
    has_hidden_word, is_subsequence, money_of_microdata, Money, MoneyView, ParseFailure,
};
use crate::decimal::{
    decimal_of, decimal_text, parse_u64, push_number, unsigned_of, Amount, Decimal,
};
use crate::dom::{
    all_set, attribute_of, can_select, children_of, first_set, fits, html_matches, html_nodes,
    index_view,
    indices, is_set, string_view, subtree_end, text_contents, Document, Node,
};
use crate::schema_org::{value_of, Scope};
use crate::text::{chars_of, string_of, trim, trimmed};

verus! {

/// Where the page of an item is found, but for the identifier at the end.
pub const ITEM_PAGE: &'static str = "https://www.ebay.com/itm/foo/";

/// Where the pages of search results are found.
pub const RESULTS_PAGE: &'static str = "https://www.ebay.com/sch/i.html";

/// The link to the page of a seller; group 1 is the name of the seller.
pub const SELLER_LINK: &'static str = r"https://(?:www\.)?ebay\.com/usr/([a-zA-Z0-9_\-]+)(?:\?.*)?";

/// A percentage; group 1 is the number before the sign.
pub const PERCENTAGE: &'static str = r"([0-9]+(?:\.[0-9]+)?)%";

/// The link to the page of an item; group 1 is the identifier of the item.
pub const ITEM_LINK: &'static str = r"https://(?:www\.)?ebay\.com/itm/([a-zA-Z0-9_\-]+)(?:\?.*)?";

/// What group `group` holds in the leftmost match of the regular
/// expression `pattern` in `text`, in the syntax and with the matching
/// rules of the crate regex. Nothing where `pattern` is no regular
/// expression, where it matches nowhere in `text`, and where the group
/// took no part in the match or is not there.
pub uninterp spec fn regex_group(pattern: Seq<char>, text: Seq<char>, group: usize) -> Option<
    Seq<char>,
>;

/// `regex::Regex::new` compiles a pattern or fails; `Regex::captures` finds
/// the leftmost match in a text and gives its groups; `Captures::get`
/// gives the group with a number, where it took part in the match, and
/// `Match::as_str` its text. The result depends on the pattern and the text alone.
#[verifier::external_body]
fn group_of(pattern: &str, text: &str, group: usize) -> (r: Option<String>)
    ensures
        string_view(r) == regex_group(pattern@, text@, group),
{
    let compiled = regex::Regex::new(pattern).ok()?;
    Some(compiled.captures(text)?.get(group)?.as_str().to_string())
}

/// Who sells a product.
#[derive(Debug)]
pub struct Seller {
    pub name: String,
    /// The share of positive feedback, between 0 and 1.
    pub feedback: Option<Amount>,
}

/// A single product.
#[derive(Debug)]
pub struct Product {
    /// The title of the product.
    pub name: String,
    /// The seller, if available.
    pub seller: Option<Seller>,
    /// The price before shipping, if available.
    pub price: Option<Money>,
    /// Whether the product came from a sponsored listing. Only a search
    /// fills this in.
    pub sponsored: Option<bool>,
}

pub struct SellerView {
    pub name: Seq<char>,
    pub feedback: Option<Decimal>,
}

pub struct ProductView {
    pub name: Seq<char>,
    pub seller: Option<SellerView>,
    pub price: Option<MoneyView>,
    pub sponsored: Option<bool>,
}

impl View for Seller {
    type V = SellerView;

    open spec fn view(&self) -> SellerView {
        SellerView {
            name: self.name@,
            feedback: match self.feedback {
                Some(a) => Some(a@),
                None => None,
            },
        }
    }
}

impl View for Product {
    type V = ProductView;

    open spec fn view(&self) -> ProductView {
        ProductView {
            name: self.name@,
            seller: match self.seller {
                Some(s) => Some(s@),
                None => None,
            },
            price: match self.price {
                Some(m) => Some(m@),
                None => None,
            },
            sponsored: self.sponsored,
        }
    }
}

impl Default for Product {
    /// A product without a name, a seller or a price.
    fn default() -> (r: Product)
        ensures
            r@ == (ProductView {
                name: Seq::<char>::empty(),
                seller: None,
                price: None,
                sponsored: None,
            }),
    {
        Product { name: String::new(), seller: None, price: None, sponsored: None }
    }
}

/// Why a page gave no product.
#[derive(Clone, Copy, Debug, PartialEq, Eq, Structural)]
pub enum ExtractError {
    /// The page has no title of an item.
    NoTitle,
    /// The page is too long to be parsed.
    PageTooLong,
}

/// For each node of an item page, which parts of the page it is.
#[derive(Debug)]
pub struct ItemMarks {
    /// Matches `#itemTitle`.
    pub title: Vec<bool>,
    /// Matches `.si-content`.
    pub seller: Vec<bool>,
    /// Matches `a[href]`.
    pub link: Vec<bool>,
    /// Matches `#si-fb`.
    pub feedback: Vec<bool>,
    /// Matches `.mainPrice`.
    pub main_price: Vec<bool>,
    /// Matches `.vi-price`.
    pub other_price: Vec<bool>,
}

pub struct ItemMarksView {
    pub title: Seq<bool>,
    pub seller: Seq<bool>,
    pub link: Seq<bool>,
    pub feedback: Seq<bool>,
    pub main_price: Seq<bool>,
    pub other_price: Seq<bool>,
}

impl View for ItemMarks {
    type V = ItemMarksView;

    open spec fn view(&self) -> ItemMarksView {
        ItemMarksView {
            title: self.title@,
            seller: self.seller@,
            link: self.link@,
            feedback: self.feedback@,
            main_price: self.main_price@,
            other_price: self.other_price@,
        }
    }
}

/// The flags of a selector on a page; none is set where the page or the
/// selector is too long and where the selector is not supported.
pub open spec fn marks_of(html: Seq<char>, selector: Seq<char>) -> Seq<bool> {
    if can_select(html, selector) {
        match html_matches(html, selector) {
            Some(flags) => flags,
            None => Seq::empty(),
        }
    } else {
        Seq::empty()
    }
}

/// The product that the item page `html` shows; a page that is too long
/// shows none.
pub open spec fn product_in(html: Seq<char>) -> Result<ProductView, ExtractError> {
    if fits(html) {
        product_of(html_nodes(html), item_marks(html))
    } else {
        Err(ExtractError::PageTooLong)
    }
}

/// The items that the page of search results `html` lists; a page that is
/// too long lists none.
pub open spec fn listing_in(html: Seq<char>) -> Result<Seq<Entry>, ListingError> {
    if fits(html) {
        listing_of(html_nodes(html), listing_marks(html))
    } else {
        Err(ListingError::PageTooLong)
    }
}

/// The marks of the item page `html`.
pub open spec fn item_marks(html: Seq<char>) -> ItemMarksView {
    ItemMarksView {
        title: marks_of(html, "#itemTitle"@),
        seller: marks_of(html, ".si-content"@),
        link: marks_of(html, "a[href]"@),
        feedback: marks_of(html, "#si-fb"@),
        main_price: marks_of(html, ".mainPrice"@),
        other_price: marks_of(html, ".vi-price"@),
    }
}

/// The first node that is marked among `node` and its descendants.
pub open spec fn first_marked(nodes: Seq<Node>, flags: Seq<bool>, node: int) -> Option<int> {
    first_set(flags, node, subtree_end(nodes, node))
}

/// The nodes that are marked among `node` and its descendants, in document
/// order.
pub open spec fn all_marked(nodes: Seq<Node>, flags: Seq<bool>, node: int) -> Seq<int> {
    all_set(flags, node, subtree_end(nodes, node))
}

/// The text of node `j`, if it is a text node.
pub open spec fn text_of(nodes: Seq<Node>, j: int) -> Option<Seq<char>> {
    if 0 <= j < nodes.len() {
        match nodes[j].text {
            Some(t) => Some(t@),
            None => None,
        }
    } else {
        None
    }
}

/// The first of these nodes that is a text node with more than white space
/// in it gives the title: its text without the white space around it.
pub open spec fn first_title(nodes: Seq<Node>, kids: Seq<int>) -> Option<Seq<char>>
    decreases kids.len(),
{
    if kids.len() == 0 {
        None
    } else {
        match text_of(nodes, kids[0]) {
            Some(t) => if trimmed(t).len() > 0 {
                Some(trimmed(t))
            } else {
                first_title(nodes, kids.drop_first())
            },
            None => first_title(nodes, kids.drop_first()),
        }
    }
}

/// The name of the seller that the link of node `j` leads to.
pub open spec fn seller_behind(nodes: Seq<Node>, j: int) -> Option<Seq<char>> {
    match attribute_of(nodes, j, "href"@) {
        Some(href) => regex_group(SELLER_LINK@, href, 1),
        None => None,
    }
}

/// The first of these links that leads to a seller gives the name.
pub open spec fn first_seller(nodes: Seq<Node>, links: Seq<int>) -> Option<Seq<char>>
    decreases links.len(),
{
    if links.len() == 0 {
        None
    } else {
        match seller_behind(nodes, links[0]) {
            Some(name) => Some(name),
            None => first_seller(nodes, links.drop_first()),
        }
    }
}

/// The share that a text such as `99.4% positive feedback` states: the
/// first percentage in it, divided by a hundred.
pub open spec fn share_in(text: Seq<char>) -> Option<Decimal> {
    match regex_group(PERCENTAGE@, text, 1) {
        Some(percent) => match decimal_of(percent) {
            Some(d) => Some(d.hundredth()),
            None => None,
        },
        None => None,
    }
}

/// The seller that the box at node `at` shows: the first link in it that
/// leads to a seller gives the name, without which there is no seller;
/// the first node marked as feedback in it gives the share of positive
/// feedback.
pub open spec fn seller_in(nodes: Seq<Node>, marks: ItemMarksView, at: int) -> Option<SellerView> {
    match first_seller(nodes, all_marked(nodes, marks.link, at)) {
        Some(name) => Some(
            SellerView {
                name,
                feedback: match first_marked(nodes, marks.feedback, at) {
                    Some(f) => share_in(text_contents(nodes, f)),
                    None => None,
                },
            },
        ),
        None => None,
    }
}

/// The money that the scope at `node` names.
pub open spec fn money_at(nodes: Seq<Node>, node: int) -> Result<MoneyView, ParseFailure> {
    money_of_microdata(value_of(nodes, node, "price"@), value_of(nodes, node, "priceCurrency"@))
}

/// The node that holds the price: the first one marked as main price, or
/// without such a node the first one marked as the other kind of price.
pub open spec fn price_node(nodes: Seq<Node>, marks: ItemMarksView) -> Option<int> {
    match first_marked(nodes, marks.main_price, 0) {
        Some(j) => Some(j),
        None => first_marked(nodes, marks.other_price, 0),
    }
}

/// The product that an item page shows. The title is required: it is the
/// first text with more than white space directly under the first node
/// marked as title. The seller and the price are each left out where the
/// page does not give them; neither stands in the way of the other.
pub open spec fn product_of(nodes: Seq<Node>, marks: ItemMarksView) -> Result<
    ProductView,
    ExtractError,
> {
    let title = match first_marked(nodes, marks.title, 0) {
        Some(t) => first_title(nodes, children_of(nodes, t)),
        None => None,
    };
    match title {
        None => Err(ExtractError::NoTitle),
        Some(name) => Ok(
            ProductView {
                name,
                seller: match first_marked(nodes, marks.seller, 0) {
                    Some(at) => seller_in(nodes, marks, at),
                    None => None,
                },
                price: match price_node(nodes, marks) {
                    Some(j) => match money_at(nodes, j) {
                        Ok(m) => Some(m),
                        Err(_) => None,
                    },
                    None => None,
                },
                sponsored: None,
            },
        ),
    }
}

pub open spec fn product_view(r: Result<Product, ExtractError>) -> Result<
    ProductView,
    ExtractError,
> {
    match r {
        Ok(p) => Ok(p@),
        Err(e) => Err(e),
    }
}

pub open spec fn seller_view(s: Option<Seller>) -> Option<SellerView> {
    match s {
        Some(s) => Some(s@),
        None => None,
    }
}

pub open spec fn amount_view(a: Option<Amount>) -> Option<Decimal> {
    match a {
        Some(a) => Some(a@),
        None => None,
    }
}

/// The flags of `selector` on the page `html`.
pub fn marks(html: &str, selector: &str) -> (flags: Vec<bool>)
    ensures
        flags@ == marks_of(html@, selector@),
{
    match Document::select_flags(html, selector) {
        Some(flags) => flags,
        None => Vec::new(),
    }
}

/// The first node that is marked among `node` and its descendants.
pub fn select_first(doc: &Document, flags: &Vec<bool>, node: usize) -> (r: Option<usize>)
    ensures
        index_view(r) == first_marked(doc@, flags@, node as int),
{
    Document::first_flagged(flags, node, doc.subtree_end(node))
}

/// The nodes that are marked among `node` and its descendants.
pub fn select(doc: &Document, flags: &Vec<bool>, node: usize) -> (r: Vec<usize>)
    ensures
        indices(r@) == all_marked(doc@, flags@, node as int),
{
    Document::all_flagged(flags, node, doc.subtree_end(node))
}

/// The title among the children `kids` of the title node.
pub fn title_among(doc: &Document, kids: &Vec<usize>) -> (r: Option<String>)
    ensures
        string_view(r) == first_title(doc@, indices(kids@)),
{
    let mut n: usize = 0;
    assert(indices(kids@).skip(0) == indices(kids@));
    while n < kids.len()
        invariant
            n <= kids.len(),
            first_title(doc@, indices(kids@)) == first_title(doc@, indices(kids@).skip(n as int)),
        decreases kids.len() - n,
    {
        let j = kids[n];
        proof {
            let rest = indices(kids@).skip(n as int);
            assert(rest[0] == j as int);
            assert(rest.drop_first() == indices(kids@).skip(n + 1));
        }
        if j < doc.nodes.len() {
            match &doc.nodes[j].text {
                Some(t) => {
                    let inner = trim(&chars_of(t.as_str()));
                    if inner.len() > 0 {
                        return Some(string_of(&inner));
                    }
                },
                None => {},
            }
        }
        n += 1;
    }
    None
}

/// The share that a text such as `99.4% positive feedback` states.
pub fn share(text: &str) -> (r: Option<Amount>)
    ensures
        amount_view(r) == share_in(text@),
{
    match group_of(PERCENTAGE, text, 1) {
        Some(percent) => match Amount::parse(&chars_of(percent.as_str())) {
            Some(a) => Some(a.hundredth()),
            None => None,
        },
        None => None,
    }
}

/// The seller that the box at node `at` shows.
pub fn seller_at(doc: &Document, marks: &ItemMarks, at: usize) -> (r: Option<Seller>)
    ensures
        seller_view(r) == seller_in(doc@, marks@, at as int),
{
    let links = select(doc, &marks.link, at);
    let mut name: Option<String> = None;
    let mut n: usize = 0;
    assert(indices(links@).skip(0) == indices(links@));
    while n < links.len() && name.is_none()
        invariant
            n <= links.len(),
            match name {
                Some(found) => first_seller(doc@, indices(links@)) == Some(found@),
                None => first_seller(doc@, indices(links@)) == first_seller(
                    doc@,
                    indices(links@).skip(n as int),
                ),
            },
        decreases links.len() - n,
    {
        proof {
            let rest = indices(links@).skip(n as int);
            assert(rest[0] == links@[n as int] as int);
            assert(rest.drop_first() == indices(links@).skip(n + 1));
        }
        match doc.attribute(links[n], "href") {
            Some(href) => {
                name = group_of(SELLER_LINK, href, 1);
            },
            None => {},
        }
        n += 1;
    }
    match name {
        Some(name) => {
            let feedback = match select_first(doc, &marks.feedback, at) {
                Some(f) => share(doc.text_contents(f).as_str()),
                None => None,
            };
            Some(Seller { name, feedback })
        },
        None => None,
    }
}

impl Product {
    /// Where the page of the item with this identifier is found.
    pub fn link(id: u64) -> (s: String)
        ensures
            s@ == ITEM_PAGE@ + decimal_text(id as nat),
    {
        let mut out = chars_of(ITEM_PAGE);
        push_number(&mut out, id);
        string_of(&out)
    }

    /// The product that a parsed item page shows, given which nodes of the
    /// page the selectors match.
    pub fn from_page(doc: &Document, marks: &ItemMarks) -> (r: Result<Product, ExtractError>)
        ensures
            product_view(r) == product_of(doc@, marks@),
    {
        let title = match select_first(doc, &marks.title, 0) {
            Some(t) => title_among(doc, &doc.children(t)),
            None => None,
        };
        let name = match title {
            Some(name) => name,
            None => {
                return Err(ExtractError::NoTitle);
            },
        };
        let seller = match select_first(doc, &marks.seller, 0) {
            Some(at) => seller_at(doc, marks, at),
            None => None,
        };
        let at = match select_first(doc, &marks.main_price, 0) {
            Some(j) => Some(j),
            None => select_first(doc, &marks.other_price, 0),
        };
        let price = match at {
            Some(j) => match Money::try_from(&Scope::new(doc, j)) {
                Ok(m) => Some(m),
                Err(_) => None,
            },
            None => None,
        };
        Ok(Product { name, seller, price, sponsored: None })
    }

    /// The product that the item page `html` shows.
    pub fn from_html(html: &str) -> (r: Result<Product, ExtractError>)
        ensures
            product_view(r) == product_in(html@),
    {
        let doc = match Document::parse(html) {
            Some(doc) => doc,
            None => {
                return Err(ExtractError::PageTooLong);
            },
        };
        let marks = ItemMarks {
            title: marks(html, "#itemTitle"),
            seller: marks(html, ".si-content"),
            link: marks(html, "a[href]"),
            feedback: marks(html, "#si-fb"),
            main_price: marks(html, ".mainPrice"),
            other_price: marks(html, ".vi-price"),
        };
        Product::from_page(&doc, &marks)
    }
}

/// One item that a page of search results lists.
#[derive(Clone, Copy, Debug, PartialEq, Eq, Structural)]
pub struct Entry {
    pub id: u64,
    /// Whether the page shows the item as a sponsored listing.
    pub sponsored: bool,
}

/// Why a page of search results gave no list.
#[derive(Clone, Copy, Debug, PartialEq, Eq, Structural)]
pub enum ListingError {
    /// The page has no main content.
    NoMainContent,
    /// The page is too long to be parsed.
    PageTooLong,
}

/// For each node of a page of search results, which parts of the page it
/// is.
#[derive(Debug)]
pub struct ListingMarks {
    /// Matches `#mainContent`.
    pub main: Vec<bool>,
    /// Matches `.s-item`.
    pub item: Vec<bool>,
    /// Matches `.s-item__detail`.
    pub detail: Vec<bool>,
}

pub struct ListingMarksView {
    pub main: Seq<bool>,
    pub item: Seq<bool>,
    pub detail: Seq<bool>,
}

impl View for ListingMarks {
    type V = ListingMarksView;

    open spec fn view(&self) -> ListingMarksView {
        ListingMarksView { main: self.main@, item: self.item@, detail: self.detail@ }
    }
}

/// The marks of the page of search results `html`.
pub open spec fn listing_marks(html: Seq<char>) -> ListingMarksView {
    ListingMarksView {
        main: marks_of(html, "#mainContent"@),
        item: marks_of(html, ".s-item"@),
        detail: marks_of(html, ".s-item__detail"@),
    }
}

/// The identifier of the item that the link of node `j` leads to.
pub open spec fn item_behind(nodes: Seq<Node>, j: int) -> Option<u64> {
    match attribute_of(nodes, j, "href"@) {
        Some(href) => match regex_group(ITEM_LINK@, href, 1) {
            Some(group) => match unsigned_of(group) {
                Some(n) => if n <= u64::MAX {
                    Some(n as u64)
                } else {
                    None
                },
                None => None,
            },
            None => None,
        },
        None => None,
    }
}

/// The identifier behind the first node from `lo` up to but not including
/// `hi` whose link leads to an item.
pub open spec fn first_item(nodes: Seq<Node>, lo: int, hi: int) -> Option<u64>
    decreases hi - lo,
{
    if lo >= hi {
        None
    } else {
        match item_behind(nodes, lo) {
            Some(id) => Some(id),
            None => first_item(nodes, lo + 1, hi),
        }
    }
}

/// The identifier of the item in the box at node `at`: that of the first
/// descendant whose link leads to an item.
pub open spec fn item_in(nodes: Seq<Node>, at: int) -> Option<u64> {
    first_item(nodes, at + 1, subtree_end(nodes, at))
}

/// The node tells a reader that the listing is sponsored: it is marked as
/// a detail and `Sponsored` is hidden in its text.
pub open spec fn says_sponsored(nodes: Seq<Node>, detail: Seq<bool>, e: int) -> bool {
    is_set(detail, e) && is_subsequence("Sponsored"@, text_contents(nodes, e))
}

/// The box at node `at` holds a node that tells that the listing is
/// sponsored.
pub open spec fn is_sponsored(nodes: Seq<Node>, detail: Seq<bool>, at: int) -> bool {
    exists|e: int| at <= e < subtree_end(nodes, at) && says_sponsored(nodes, detail, e)
}

/// The entries of these boxes, in their order; a box without an item gives
/// none.
pub open spec fn entries_of(nodes: Seq<Node>, detail: Seq<bool>, boxes: Seq<int>) -> Seq<Entry>
    decreases boxes.len(),
{
    if boxes.len() == 0 {
        Seq::empty()
    } else {
        let before = entries_of(nodes, detail, boxes.drop_last());
        match item_in(nodes, boxes.last()) {
            Some(id) => before.push(
                Entry { id, sponsored: is_sponsored(nodes, detail, boxes.last()) },
            ),
            None => before,
        }
    }
}

/// The items that a page of search results lists, in document order: one
/// for each box marked as item in the main content that holds a link to an
/// item.
pub open spec fn listing_of(nodes: Seq<Node>, marks: ListingMarksView) -> Result<
    Seq<Entry>,
    ListingError,
> {
    match first_marked(nodes, marks.main, 0) {
        Some(main) => Ok(entries_of(nodes, marks.detail, all_marked(nodes, marks.item, main))),
        None => Err(ListingError::NoMainContent),
    }
}

pub open spec fn listing_view(r: Result<Vec<Entry>, ListingError>) -> Result<
    Seq<Entry>,
    ListingError,
> {
    match r {
        Ok(v) => Ok(v@),
        Err(e) => Err(e),
    }
}

/// The identifier of the item in the box at node `at`.
pub fn item_at(doc: &Document, at: usize) -> (r: Option<u64>)
    ensures
        r == item_in(doc@, at as int),
{
    let end = doc.subtree_end(at);
    if at >= doc.len() {
        return None;
    }
    let mut j: usize = at + 1;
    while j < end
        invariant
            at < j,
            end <= doc@.len(),
            item_in(doc@, at as int) == first_item(doc@, j as int, end as int),
        decreases end - j,
    {
        match doc.attribute(j, "href") {
            Some(href) => {
                match group_of(ITEM_LINK, href, 1) {
                    Some(group) => {
                        match parse_u64(group.as_str()) {
                            Some(id) => {
                                return Some(id);
                            },
                            None => {},
                        }
                    },
                    None => {},
                }
            },
            None => {},
        }
        j += 1;
    }
    None
}

/// Whether the box at node `at` tells that the listing is sponsored.
pub fn sponsored_at(doc: &Document, detail: &Vec<bool>, at: usize) -> (r: bool)
    ensures
        r == is_sponsored(doc@, detail@, at as int),
{
    let end = doc.subtree_end(at);
    let mut e: usize = at;
    while e < end && e < detail.len()
        invariant
            at <= e,
            end == subtree_end(doc@, at as int),
            forall|k: int| at <= k < e ==> !says_sponsored(doc@, detail@, k),
        decreases end - e,
    {
        if detail[e] && has_hidden_word("Sponsored", doc.text_contents(e).as_str()) {
            assert(says_sponsored(doc@, detail@, e as int));
            return true;
        }
        e += 1;
    }
    false
}

/// The items that a parsed page of search results lists, given which nodes
/// of the page the selectors match.
pub fn listing(doc: &Document, marks: &ListingMarks) -> (r: Result<Vec<Entry>, ListingError>)
    ensures
        listing_view(r) == listing_of(doc@, marks@),
{
    let main = match select_first(doc, &marks.main, 0) {
        Some(main) => main,
        None => {
            return Err(ListingError::NoMainContent);
        },
    };
    let boxes = select(doc, &marks.item, main);
    let mut out: Vec<Entry> = Vec::new();
    let mut n: usize = 0;
    while n < boxes.len()
        invariant
            n <= boxes.len(),
            out@ == entries_of(doc@, marks.detail@, indices(boxes@).take(n as int)),
        decreases boxes.len() - n,
    {
        proof {
            let upto = indices(boxes@).take(n + 1);
            assert(upto.drop_last() == indices(boxes@).take(n as int));
            assert(upto.last() == boxes@[n as int] as int);
        }
        match item_at(doc, boxes[n]) {
            Some(id) => {
                let sponsored = sponsored_at(doc, &marks.detail, boxes[n]);
                out.push(Entry { id, sponsored });
            },
            None => {},
        }
        n += 1;
    }
    assert(indices(boxes@).take(n as int) == indices(boxes@));
    Ok(out)
}

/// The items that the page of search results `html` lists.
pub fn listing_from_html(html: &str) -> (r: Result<Vec<Entry>, ListingError>)
    ensures
        listing_view(r) == listing_in(html@),
{
    let doc = match Document::parse(html) {
        Some(doc) => doc,
        None => {
            return Err(ListingError::PageTooLong);
        },
    };
    let marks = ListingMarks {
        main: marks(html, "#mainContent"),
        item: marks(html, ".s-item"),
        detail: marks(html, ".s-item__detail"),
    };
    listing(&doc, &marks)
}

} // verus!

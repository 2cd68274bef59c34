//! A parsed page as plain data: its nodes in document order, each with its
//! attributes, its text and the size of its subtree. The HTML parser and the
//! selector engine are kuchiki's; what is done with their results is
//! verified here.

use kuchiki::traits::TendrilSink;
use vstd::prelude::*;
use crate::text::same_text;

verus! {

/// One attribute of an element. Attributes written in plain HTML have an
/// empty namespace.
#[derive(Debug)]
pub struct Attribute {
    pub namespace: String,
    pub name: String,
    pub value: String,
}

/// One node of a page.
#[derive(Debug)]
pub struct Node {
    /// The attributes of an element; empty for other nodes.
    pub attributes: Vec<Attribute>,
    /// The characters of a text node; nothing for other nodes.
    pub text: Option<String>,
    /// How many nodes follow this one as its descendants.
    pub descendants: usize,
}

/// The longest page that is parsed, in characters.
pub const MAX_PAGE: usize = 0x0fff_ffff;

/// The page is short enough to be parsed. The parser holds text in buffers
/// whose size it rounds up to a power of two, which with its header must
/// stay below 2^31 bytes; a character takes at most four bytes, and no
/// text that the parser builds has more characters than the page.
pub open spec fn fits(html: Seq<char>) -> bool {
    html.len() <= MAX_PAGE
}

/// The longest list of selectors that is read, in characters.
pub const MAX_SELECTOR: usize = 1024;

/// The page is short enough to be parsed and the list of selectors short
/// enough to be read: matching goes as deep as the selectors are long.
pub open spec fn can_select(html: Seq<char>, selector: Seq<char>) -> bool {
    fits(html) && selector.len() <= MAX_SELECTOR
}

/// The nodes of the tree that kuchiki parses `html` into, the document node
/// first, each node before its children and the children in their order.
pub uninterp spec fn html_nodes(html: Seq<char>) -> Seq<Node>;

/// For each node of the tree that kuchiki parses `html` into, in the same
/// order, whether the node is an element that matches the list of CSS
/// selectors; nothing where kuchiki does not accept the selectors.
pub uninterp spec fn html_matches(html: Seq<char>, selector: Seq<char>) -> Option<Seq<bool>>;

/// `kuchiki::parse_html` builds the tree of a page, which does not fail
/// for a page that fits, and `inclusive_descendants` walks it from the
/// document node in tree order.
/// Each node is copied: the attributes of an element with their namespace,
/// local name and value, the contents of a text node, and the number of
/// nodes that `descendants` yields for it.
#[verifier::external_body]
fn snapshot(html: &str) -> (nodes: Vec<Node>)
    requires
        fits(html@),
    ensures
        nodes@ == html_nodes(html@),
{
    let copy = |n: kuchiki::NodeRef| Node {
        attributes: n.as_element().map_or(Vec::new(), |e| e.attributes.borrow().map.iter().map(|(k, v)| Attribute {
            namespace: k.ns.to_string(), name: k.local.to_string(), value: v.value.clone(),
        }).collect()),
        text: n.as_text().map(|t| t.borrow().clone()),
        descendants: n.descendants().count(),
    };
    kuchiki::parse_html().one(html).inclusive_descendants().map(copy).collect()
}

/// `kuchiki::Selectors::compile` reads a list of CSS selectors and fails on
/// what it does not support; `Selectors::matches` tells whether an element
/// matches one of them. The tree is that of `kuchiki::parse_html`, walked
/// as in `snapshot`; a node that is no element matches nothing.
#[verifier::external_body]
fn match_flags(html: &str, selector: &str) -> (flags: Option<Vec<bool>>)
    requires
        can_select(html@, selector@),
    ensures
        match flags {
            Some(f) => html_matches(html@, selector@) == Some(f@),
            None => html_matches(html@, selector@) is None,
        },
{
    let compiled = kuchiki::Selectors::compile(selector).ok()?;
    let nodes = kuchiki::parse_html().one(html).inclusive_descendants();
    Some(nodes.map(|n| n.into_element_ref().map_or(false, |e| compiled.matches(&e))).collect())
}

/// The index after the last descendant of node `i`, never beyond the end
/// of the page.
pub open spec fn subtree_end(nodes: Seq<Node>, i: int) -> int {
    if 0 <= i < nodes.len() {
        if i + 1 + nodes[i].descendants <= nodes.len() {
            i + 1 + nodes[i].descendants
        } else {
            nodes.len() as int
        }
    } else {
        i
    }
}

/// The value of the first attribute without a namespace that has this
/// name.
pub open spec fn first_attribute(attributes: Seq<Attribute>, key: Seq<char>) -> Option<Seq<char>>
    decreases attributes.len(),
{
    if attributes.len() == 0 {
        None
    } else if attributes[0].namespace@.len() == 0 && attributes[0].name@ == key {
        Some(attributes[0].value@)
    } else {
        first_attribute(attributes.drop_first(), key)
    }
}

/// The value of attribute `key` of node `i`.
pub open spec fn attribute_of(nodes: Seq<Node>, i: int, key: Seq<char>) -> Option<Seq<char>> {
    if 0 <= i < nodes.len() {
        first_attribute(nodes[i].attributes@, key)
    } else {
        None
    }
}

/// For each node whether its attribute `key` has the value `value`.
pub open spec fn attribute_flags(nodes: Seq<Node>, key: Seq<char>, value: Seq<char>) -> Seq<bool> {
    Seq::new(nodes.len(), |j: int| attribute_of(nodes, j, key) == Some(value))
}

/// For each node whether it has an attribute `key`.
pub open spec fn presence_flags(nodes: Seq<Node>, key: Seq<char>) -> Seq<bool> {
    Seq::new(nodes.len(), |j: int| attribute_of(nodes, j, key) is Some)
}

pub open spec fn is_set(flags: Seq<bool>, j: int) -> bool {
    0 <= j < flags.len() && flags[j]
}

/// The first index from `lo` up to but not including `hi` whose flag is
/// set.
pub open spec fn first_set(flags: Seq<bool>, lo: int, hi: int) -> Option<int>
    decreases hi - lo,
{
    if lo >= hi {
        None
    } else if is_set(flags, lo) {
        Some(lo)
    } else {
        first_set(flags, lo + 1, hi)
    }
}

/// The indices from `lo` up to but not including `hi` whose flag is set,
/// rising.
pub open spec fn all_set(flags: Seq<bool>, lo: int, hi: int) -> Seq<int>
    decreases hi - lo,
{
    if lo >= hi {
        Seq::empty()
    } else if is_set(flags, hi - 1) {
        all_set(flags, lo, hi - 1).push(hi - 1)
    } else {
        all_set(flags, lo, hi - 1)
    }
}

/// The text of the text nodes from `lo` up to but not including `hi`, in
/// their order.
pub open spec fn texts(nodes: Seq<Node>, lo: int, hi: int) -> Seq<char>
    decreases hi - lo,
{
    if lo >= hi || hi > nodes.len() || lo < 0 {
        Seq::empty()
    } else {
        match nodes[hi - 1].text {
            Some(t) => texts(nodes, lo, hi - 1) + t@,
            None => texts(nodes, lo, hi - 1),
        }
    }
}

/// The text of node `i` and of its descendants, in their order.
pub open spec fn text_contents(nodes: Seq<Node>, i: int) -> Seq<char> {
    texts(nodes, i, subtree_end(nodes, i))
}

/// Where the sibling after child `c` would stand: after the subtree of
/// `c`, and not beyond `end`.
pub open spec fn next_sibling(nodes: Seq<Node>, c: int, end: int) -> int {
    if c < subtree_end(nodes, c) < end {
        subtree_end(nodes, c)
    } else {
        end
    }
}

/// The children in a run of nodes that starts at child `c` and ends before
/// `end`: `c`, then the node after the subtree of `c`, and so on.
pub open spec fn children_from(nodes: Seq<Node>, c: int, end: int) -> Seq<int>
    decreases end - c,
{
    if c < 0 || c >= end || c >= nodes.len() {
        Seq::empty()
    } else {
        seq![c] + children_from(nodes, next_sibling(nodes, c, end), end)
    }
}

/// The children of node `i`, in their order.
pub open spec fn children_of(nodes: Seq<Node>, i: int) -> Seq<int> {
    children_from(nodes, i + 1, subtree_end(nodes, i))
}

/// The first set flag is set, lies in the range, and no flag before it in
/// the range is set; there is none only where no flag in the range is set.
pub proof fn lemma_first_set(flags: Seq<bool>, lo: int, hi: int)
    ensures
        match first_set(flags, lo, hi) {
            Some(j) => lo <= j < hi && is_set(flags, j) && forall|k: int|
                lo <= k < j ==> !is_set(flags, k),
            None => forall|k: int| lo <= k < hi ==> !is_set(flags, k),
        },
    decreases hi - lo,
{
    if lo < hi && !is_set(flags, lo) {
        lemma_first_set(flags, lo + 1, hi);
    }
}

/// `all_set` holds exactly the indices of the range whose flag is set, and
/// holds them rising.
pub proof fn lemma_all_set(flags: Seq<bool>, lo: int, hi: int)
    ensures
        forall|n: int|
            0 <= n < all_set(flags, lo, hi).len() ==> lo <= #[trigger] all_set(flags, lo, hi)[n]
                < hi && is_set(flags, all_set(flags, lo, hi)[n]),
        forall|m: int, n: int|
            0 <= m < n < all_set(flags, lo, hi).len() ==> #[trigger] all_set(flags, lo, hi)[m]
                < #[trigger] all_set(flags, lo, hi)[n],
        forall|k: int|
            lo <= k < hi && is_set(flags, k) ==> #[trigger] all_set(flags, lo, hi).contains(k),
    decreases hi - lo,
{
    if lo < hi {
        lemma_all_set(flags, lo, hi - 1);
        let before = all_set(flags, lo, hi - 1);
        let now = all_set(flags, lo, hi);
        assert forall|k: int| lo <= k < hi && is_set(flags, k) implies #[trigger] now.contains(
            k,
        ) by {
            if k < hi - 1 {
                assert(before.contains(k));
                let n = choose|n: int| 0 <= n < before.len() && before[n] == k;
                assert(now[n] == k);
            } else {
                assert(now[now.len() - 1] == k);
            }
        }
    }
}

/// The first set flag is the first entry of `all_set`.
pub proof fn lemma_first_of_all_set(flags: Seq<bool>, lo: int, hi: int)
    ensures
        match first_set(flags, lo, hi) {
            Some(j) => all_set(flags, lo, hi).len() > 0 && all_set(flags, lo, hi)[0] == j,
            None => all_set(flags, lo, hi).len() == 0,
        },
{
    lemma_first_set(flags, lo, hi);
    lemma_all_set(flags, lo, hi);
    let all = all_set(flags, lo, hi);
    match first_set(flags, lo, hi) {
        Some(j) => {
            assert(all.contains(j));
            let n = choose|n: int| 0 <= n < all.len() && all[n] == j;
            if n > 0 {
                assert(all[0] < all[n]);
                assert(is_set(flags, all[0]));
            }
        },
        None => {
            if all.len() > 0 {
                assert(is_set(flags, all[0]));
            }
        },
    }
}

/// The view of an optional text.
pub open spec fn text_view(t: Option<&str>) -> Option<Seq<char>> {
    match t {
        Some(s) => Some(s@),
        None => None,
    }
}

/// The view of an optional string.
pub open spec fn string_view(t: Option<String>) -> Option<Seq<char>> {
    match t {
        Some(s) => Some(s@),
        None => None,
    }
}

/// The indices as integers.
pub open spec fn indices(v: Seq<usize>) -> Seq<int> {
    v.map_values(|j: usize| j as int)
}

pub open spec fn index_view(j: Option<usize>) -> Option<int> {
    match j {
        Some(j) => Some(j as int),
        None => None,
    }
}

impl Node {
    /// The value of the attribute `key`.
    pub fn attribute(&self, key: &str) -> (r: Option<&str>)
        ensures
            text_view(r) == first_attribute(self.attributes@, key@),
    {
        let mut j: usize = 0;
        assert(self.attributes@.skip(0) == self.attributes@);
        while j < self.attributes.len()
            invariant
                j <= self.attributes.len(),
                first_attribute(self.attributes@, key@) == first_attribute(
                    self.attributes@.skip(j as int),
                    key@,
                ),
            decreases self.attributes.len() - j,
        {
            let a = &self.attributes[j];
            proof {
                let rest = self.attributes@.skip(j as int);
                assert(rest[0] == self.attributes@[j as int]);
                assert(rest.drop_first() == self.attributes@.skip(j + 1));
            }
            if a.namespace.as_str().unicode_len() == 0 && same_text(a.name.as_str(), key) {
                return Some(a.value.as_str());
            }
            j += 1;
        }
        None
    }
}

/// A parsed page.
#[derive(Debug)]
pub struct Document {
    /// The nodes in document order: each node stands before its
    /// descendants, which follow it directly.
    pub nodes: Vec<Node>,
}

impl View for Document {
    type V = Seq<Node>;

    open spec fn view(&self) -> Seq<Node> {
        self.nodes@
    }
}

impl Document {
    /// Whether the page is short enough to be parsed.
    pub fn fits(html: &str) -> (r: bool)
        ensures
            r == fits(html@),
    {
        html.unicode_len() <= MAX_PAGE
    }

    /// Parses a page; `None` for a page that is too long.
    pub fn parse(html: &str) -> (doc: Option<Document>)
        ensures
            match doc {
                Some(d) => fits(html@) && d@ == html_nodes(html@),
                None => !fits(html@),
            },
    {
        if Document::fits(html) {
            Some(Document { nodes: snapshot(html) })
        } else {
            None
        }
    }

    /// For each node of the page `html`, whether the list of CSS selectors
    /// matches it; `None` where the page or the list is too long and where
    /// the selectors are not supported.
    pub fn select_flags(html: &str, selector: &str) -> (flags: Option<Vec<bool>>)
        ensures
            match flags {
                Some(f) => can_select(html@, selector@) && html_matches(html@, selector@) == Some(
                    f@,
                ),
                None => !can_select(html@, selector@) || html_matches(html@, selector@) is None,
            },
    {
        if Document::fits(html) && selector.unicode_len() <= MAX_SELECTOR {
            match_flags(html, selector)
        } else {
            None
        }
    }

    pub fn len(&self) -> (n: usize)
        ensures
            n == self@.len(),
    {
        self.nodes.len()
    }

    /// The index after the last descendant of node `i`.
    pub fn subtree_end(&self, i: usize) -> (end: usize)
        ensures
            end == subtree_end(self@, i as int),
            i < self@.len() ==> i < end <= self@.len(),
    {
        let n = self.nodes.len();
        if i < n {
            let d = self.nodes[i].descendants;
            if d <= n - i - 1 {
                i + 1 + d
            } else {
                n
            }
        } else {
            i
        }
    }

    /// The value of attribute `key` of node `i`.
    pub fn attribute(&self, i: usize, key: &str) -> (r: Option<&str>)
        ensures
            text_view(r) == attribute_of(self@, i as int, key@),
    {
        if i < self.nodes.len() {
            self.nodes[i].attribute(key)
        } else {
            None
        }
    }

    /// The first node from `lo` up to but not including `hi` whose
    /// attribute `key` has the value `value`.
    pub fn first_with_attribute(&self, lo: usize, hi: usize, key: &str, value: &str) -> (r: Option<
        usize,
    >)
        ensures
            index_view(r) == first_set(attribute_flags(self@, key@, value@), lo as int, hi as int),
    {
        let ghost flags = attribute_flags(self@, key@, value@);
        let mut j: usize = lo;
        while j < hi && j < self.nodes.len()
            invariant
                lo <= j,
                flags == attribute_flags(self@, key@, value@),
                first_set(flags, lo as int, hi as int) == first_set(flags, j as int, hi as int),
            decreases hi - j,
        {
            let hit = match self.nodes[j].attribute(key) {
                Some(v) => same_text(v, value),
                None => false,
            };
            if hit {
                return Some(j);
            }
            j += 1;
        }
        proof {
            lemma_none_set_beyond(flags, j as int, hi as int);
        }
        None
    }

    /// The nodes from `lo` up to but not including `hi` whose attribute
    /// `key` has the value `value`, in their order.
    pub fn all_with_attribute(&self, lo: usize, hi: usize, key: &str, value: &str) -> (r: Vec<usize>)
        ensures
            indices(r@) == all_set(attribute_flags(self@, key@, value@), lo as int, hi as int),
    {
        let ghost flags = attribute_flags(self@, key@, value@);
        let mut out: Vec<usize> = Vec::new();
        let mut j: usize = lo;
        assert(indices(out@) =~= all_set(flags, lo as int, lo as int));
        while j < hi && j < self.nodes.len()
            invariant
                lo <= j,
                j <= hi || j == lo,
                flags == attribute_flags(self@, key@, value@),
                indices(out@) == all_set(flags, lo as int, j as int),
            decreases hi - j,
        {
            let hit = match self.nodes[j].attribute(key) {
                Some(v) => same_text(v, value),
                None => false,
            };
            if hit {
                let ghost before = indices(out@);
                out.push(j);
                assert(indices(out@) =~= before.push(j as int));
            }
            j += 1;
        }
        proof {
            lemma_all_set_beyond(flags, lo as int, j as int, hi as int);
        }
        out
    }

    /// The first node from `lo` up to but not including `hi` whose flag is
    /// set.
    pub fn first_flagged(flags: &Vec<bool>, lo: usize, hi: usize) -> (r: Option<usize>)
        ensures
            index_view(r) == first_set(flags@, lo as int, hi as int),
    {
        let mut j: usize = lo;
        while j < hi && j < flags.len()
            invariant
                lo <= j,
                first_set(flags@, lo as int, hi as int) == first_set(flags@, j as int, hi as int),
            decreases hi - j,
        {
            if flags[j] {
                return Some(j);
            }
            j += 1;
        }
        proof {
            lemma_none_set_beyond(flags@, j as int, hi as int);
        }
        None
    }

    /// The nodes from `lo` up to but not including `hi` whose flag is set,
    /// in their order.
    pub fn all_flagged(flags: &Vec<bool>, lo: usize, hi: usize) -> (r: Vec<usize>)
        ensures
            indices(r@) == all_set(flags@, lo as int, hi as int),
    {
        let mut out: Vec<usize> = Vec::new();
        let mut j: usize = lo;
        assert(indices(out@) =~= all_set(flags@, lo as int, lo as int));
        while j < hi && j < flags.len()
            invariant
                lo <= j,
                j <= hi || j == lo,
                indices(out@) == all_set(flags@, lo as int, j as int),
            decreases hi - j,
        {
            if flags[j] {
                let ghost before = indices(out@);
                out.push(j);
                assert(indices(out@) =~= before.push(j as int));
            }
            j += 1;
        }
        proof {
            lemma_all_set_beyond(flags@, lo as int, j as int, hi as int);
        }
        out
    }

    /// The text of node `i` and of its descendants.
    pub fn text_contents(&self, i: usize) -> (s: String)
        ensures
            s@ == text_contents(self@, i as int),
    {
        let end = self.subtree_end(i);
        let mut out = String::new();
        let mut j: usize = i;
        while j < end
            invariant
                i <= j,
                j <= end || end <= i,
                end <= self@.len() || end <= i,
                out@ == texts(self@, i as int, j as int),
            decreases end - j,
        {
            match &self.nodes[j].text {
                Some(t) => {
                    out.append(t.as_str());
                },
                None => {},
            }
            j += 1;
        }
        out
    }

    /// The children of node `i`.
    pub fn children(&self, i: usize) -> (r: Vec<usize>)
        ensures
            indices(r@) == children_of(self@, i as int),
    {
        let end = self.subtree_end(i);
        let mut out: Vec<usize> = Vec::new();
        if i >= self.nodes.len() {
            assert(indices(out@) =~= children_of(self@, i as int));
            return out;
        }
        let mut c: usize = i + 1;
        while c < end
            invariant
                i < c,
                end <= self@.len(),
                indices(out@) + children_from(self@, c as int, end as int) == children_of(
                    self@,
                    i as int,
                ),
            decreases end - c,
        {
            let ghost before = indices(out@);
            out.push(c);
            assert(indices(out@) =~= before.push(c as int));
            let after = self.subtree_end(c);
            let next = if after < end {
                after
            } else {
                end
            };
            assert(next == next_sibling(self@, c as int, end as int));
            assert(before.push(c as int) + children_from(self@, next as int, end as int) =~= before
                + children_from(self@, c as int, end as int));
            c = next;
        }
        assert(indices(out@) =~= children_of(self@, i as int));
        out
    }
}

/// Beyond the end of the flags nothing is set.
pub proof fn lemma_none_set_beyond(flags: Seq<bool>, lo: int, hi: int)
    requires
        lo >= hi || lo >= flags.len(),
    ensures
        first_set(flags, lo, hi) is None,
    decreases hi - lo,
{
    if lo < hi {
        lemma_none_set_beyond(flags, lo + 1, hi);
    }
}

/// Beyond the end of the flags nothing is added.
pub proof fn lemma_all_set_beyond(flags: Seq<bool>, lo: int, mid: int, hi: int)
    requires
        lo <= mid,
        mid >= hi || mid >= flags.len(),
        mid <= hi || mid == lo,
    ensures
        all_set(flags, lo, hi) == all_set(flags, lo, mid),
    decreases hi - mid,
{
    if mid < hi {
        lemma_all_set_beyond(flags, lo, mid, hi - 1);
    }
}

} // verus!

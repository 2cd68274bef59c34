//! Microdata as schema.org describes it: scopes marked with `itemtype`,
//! holding properties marked with `itemprop`.

use vstd::prelude::*;
use crate::dom::{
    all_set, attribute_flags, attribute_of, first_set, index_view, indices, string_view,
    subtree_end, text_contents, Document,
};

verus! {

/// An `itemscope`: a node of a page, seen as the region that it and its
/// descendants form. A scope borrows the page and cannot outlive it.
#[derive(Clone, Copy, Debug)]
pub struct Scope<'a> {
    pub doc: &'a Document,
    pub node: usize,
}

/// The descendants of `node` whose attribute `key` is `value`, in document
/// order. Descendants at any depth count, not children only.
pub open spec fn matches_in(
    nodes: Seq<crate::dom::Node>,
    node: int,
    key: Seq<char>,
    value: Seq<char>,
) -> Seq<int> {
    all_set(attribute_flags(nodes, key, value), node + 1, subtree_end(nodes, node))
}

/// The first descendant of `node` whose attribute `key` is `value`.
pub open spec fn first_match_in(
    nodes: Seq<crate::dom::Node>,
    node: int,
    key: Seq<char>,
    value: Seq<char>,
) -> Option<int> {
    first_set(attribute_flags(nodes, key, value), node + 1, subtree_end(nodes, node))
}

/// The value that node `j` gives as a property: its attribute `content`
/// where it has one, else the text of the node and its descendants.
pub open spec fn value_at(nodes: Seq<crate::dom::Node>, j: int) -> Seq<char> {
    match attribute_of(nodes, j, "content"@) {
        Some(v) => v,
        None => text_contents(nodes, j),
    }
}

/// The value of the first descendant of `node` that is marked as property
/// `prop`.
pub open spec fn value_of(nodes: Seq<crate::dom::Node>, node: int, prop: Seq<char>) -> Option<
    Seq<char>,
> {
    match first_match_in(nodes, node, "itemprop"@, prop) {
        Some(j) => Some(value_at(nodes, j)),
        None => None,
    }
}

/// The values of all descendants of `node` that are marked as property
/// `prop`, in document order.
pub open spec fn values_of(nodes: Seq<crate::dom::Node>, node: int, prop: Seq<char>) -> Seq<
    Seq<char>,
> {
    matches_in(nodes, node, "itemprop"@, prop).map_values(|j: int| value_at(nodes, j))
}

/// Reading a value changes nothing: two readings of the same property of
/// the same scope give the same text, or both give none.
pub proof fn lemma_value_is_read_again(
    nodes: Seq<crate::dom::Node>,
    node: int,
    prop: Seq<char>,
    first: Option<Seq<char>>,
    second: Option<Seq<char>>,
)
    requires
        first == value_of(nodes, node, prop),
        second == value_of(nodes, node, prop),
    ensures
        first == second,
{
}

/// The views of a vector of strings.
pub open spec fn string_views(v: Seq<String>) -> Seq<Seq<char>> {
    v.map_values(|s: String| s@)
}

/// The scopes stand at these nodes of this page.
pub open spec fn scopes_at(scopes: Seq<Scope>, doc: &Document, nodes: Seq<int>) -> bool {
    &&& scopes.len() == nodes.len()
    &&& forall|n: int|
        0 <= n < scopes.len() ==> (#[trigger] scopes[n]).node == nodes[n] && scopes[n].doc == doc
}

impl<'a> Scope<'a> {
    /// The region that node `node` of `doc` and its descendants form.
    pub fn new(doc: &'a Document, node: usize) -> (s: Scope<'a>)
        ensures
            s.doc == doc,
            s.node == node,
    {
        Scope { doc, node }
    }

    /// The first scope of the page whose `itemtype` is `item_type`.
    pub fn find(doc: &'a Document, item_type: &str) -> (r: Option<Scope<'a>>)
        ensures
            match r {
                Some(s) => s.doc == doc && first_match_in(doc@, 0, "itemtype"@, item_type@)
                    == Some(s.node as int),
                None => first_match_in(doc@, 0, "itemtype"@, item_type@) is None,
            },
    {
        Scope::new(doc, 0).select_type(item_type)
    }

    fn first_node(&self, key: &str, value: &str) -> (r: Option<usize>)
        ensures
            index_view(r) == first_match_in(self.doc@, self.node as int, key@, value@),
    {
        let end = self.doc.subtree_end(self.node);
        if self.node < self.doc.len() {
            self.doc.first_with_attribute(self.node + 1, end, key, value)
        } else {
            None
        }
    }

    fn all_nodes(&self, key: &str, value: &str) -> (r: Vec<usize>)
        ensures
            indices(r@) == matches_in(self.doc@, self.node as int, key@, value@),
    {
        let end = self.doc.subtree_end(self.node);
        if self.node < self.doc.len() {
            self.doc.all_with_attribute(self.node + 1, end, key, value)
        } else {
            let out: Vec<usize> = Vec::new();
            assert(indices(out@) =~= matches_in(self.doc@, self.node as int, key@, value@));
            out
        }
    }

    fn scopes(&self, nodes: &Vec<usize>) -> (r: Vec<Scope<'a>>)
        ensures
            scopes_at(r@, self.doc, indices(nodes@)),
    {
        let mut out: Vec<Scope<'a>> = Vec::new();
        let mut n: usize = 0;
        while n < nodes.len()
            invariant
                n <= nodes.len(),
                scopes_at(out@, self.doc, indices(nodes@).take(n as int)),
            decreases nodes.len() - n,
        {
            out.push(Scope { doc: self.doc, node: nodes[n] });
            n += 1;
        }
        assert(indices(nodes@).take(n as int) == indices(nodes@));
        out
    }

    fn value(&self, j: usize) -> (s: String)
        ensures
            s@ == value_at(self.doc@, j as int),
    {
        match self.doc.attribute(j, "content") {
            Some(v) => v.to_owned(),
            None => self.doc.text_contents(j),
        }
    }

    /// The scopes among the descendants whose `itemtype` is `item_type`.
    pub fn select_types(&self, item_type: &str) -> (r: Vec<Scope<'a>>)
        ensures
            scopes_at(r@, self.doc, matches_in(self.doc@, self.node as int, "itemtype"@, item_type@)),
    {
        let nodes = self.all_nodes("itemtype", item_type);
        self.scopes(&nodes)
    }

    /// The first scope among the descendants whose `itemtype` is
    /// `item_type`.
    pub fn select_type(&self, item_type: &str) -> (r: Option<Scope<'a>>)
        ensures
            match r {
                Some(s) => s.doc == self.doc && first_match_in(
                    self.doc@,
                    self.node as int,
                    "itemtype"@,
                    item_type@,
                ) == Some(s.node as int),
                None => first_match_in(self.doc@, self.node as int, "itemtype"@, item_type@)
                    is None,
            },
    {
        match self.first_node("itemtype", item_type) {
            Some(j) => Some(Scope { doc: self.doc, node: j }),
            None => None,
        }
    }

    /// The descendants that are marked as property `prop`.
    pub fn select_props(&self, prop: &str) -> (r: Vec<Scope<'a>>)
        ensures
            scopes_at(r@, self.doc, matches_in(self.doc@, self.node as int, "itemprop"@, prop@)),
    {
        let nodes = self.all_nodes("itemprop", prop);
        self.scopes(&nodes)
    }

    /// The first descendant that is marked as property `prop`.
    pub fn select_prop(&self, prop: &str) -> (r: Option<Scope<'a>>)
        ensures
            match r {
                Some(s) => s.doc == self.doc && first_match_in(
                    self.doc@,
                    self.node as int,
                    "itemprop"@,
                    prop@,
                ) == Some(s.node as int),
                None => first_match_in(self.doc@, self.node as int, "itemprop"@, prop@) is None,
            },
    {
        match self.first_node("itemprop", prop) {
            Some(j) => Some(Scope { doc: self.doc, node: j }),
            None => None,
        }
    }

    /// The values of the descendants that are marked as property `prop`.
    pub fn get_values(&self, prop: &str) -> (r: Vec<String>)
        ensures
            string_views(r@) == values_of(self.doc@, self.node as int, prop@),
    {
        let nodes = self.all_nodes("itemprop", prop);
        let mut out: Vec<String> = Vec::new();
        let mut n: usize = 0;
        while n < nodes.len()
            invariant
                n <= nodes.len(),
                out@.len() == n,
                forall|k: int| 0 <= k < n ==> (#[trigger] out@[k])@ == value_at(self.doc@, nodes@[k] as int),
            decreases nodes.len() - n,
        {
            let v = self.value(nodes[n]);
            out.push(v);
            n += 1;
        }
        assert(string_views(out@) =~= values_of(self.doc@, self.node as int, prop@));
        out
    }

    /// The value of the first descendant that is marked as property `prop`.
    /// Nothing is kept between calls: the same scope and property give the
    /// same value again.
    pub fn get_value(&self, prop: &str) -> (r: Option<String>)
        ensures
            string_view(r) == value_of(self.doc@, self.node as int, prop@),
    {
        match self.first_node("itemprop", prop) {
            Some(j) => Some(self.value(j)),
            None => None,
        }
    }
}

} // verus!

//! The DOM tree of a document: nodes kept in an arena and named by their
//! index, each with its parent and its ordered children, and the tree
//! algorithms of the DOM Standard over them (pre-insertion, removal,
//! text content, attributes, siblings).
//!
//! Node 0 is the document. A dropped node leaves an empty slot behind; its
//! index is not reused.
use vstd::prelude::*;
use crate::dom_exception::DOMException;
use crate::lookup::{first_match, lemma_first_match_is, lemma_first_match_none, without};
use crate::text::{
    ascii_lower_seq, ascii_upper_seq, chars_of, concat_str, str_eq, str_eq_ignore_ascii_case,
    str_to_ascii_lowercase, str_to_ascii_uppercase, eq_ignore_ascii_case,
};

verus! {

/// The HTML namespace.
pub open spec fn html_ns() -> Seq<char> {
    "http://www.w3.org/1999/xhtml"@
}

pub open spec fn opt_seq(o: Option<String>) -> Option<Seq<char>> {
    match o {
        Some(s) => Some(s@),
        None => None,
    }
}

/// An attribute: its qualified name (prefix, namespace, local name) and
/// value.
#[derive(Clone, Debug)]
pub struct Attribute {
    pub prefix: Option<String>,
    pub ns: String,
    pub local: String,
    pub value: String,
}

pub struct AttrModel {
    pub prefix: Option<Seq<char>>,
    pub ns: Seq<char>,
    pub local: Seq<char>,
    pub value: Seq<char>,
}

impl View for Attribute {
    type V = AttrModel;

    open spec fn view(&self) -> AttrModel {
        AttrModel { prefix: opt_seq(self.prefix), ns: self.ns@, local: self.local@, value: self.value@ }
    }
}

/// What a node is.
#[derive(Debug)]
pub enum NodeData {
    Document,
    Element { prefix: Option<String>, ns: String, local: String, attrs: Vec<Attribute> },
    Text { content: String },
    Comment,
}

pub enum DataModel {
    Document,
    Element { prefix: Option<Seq<char>>, ns: Seq<char>, local: Seq<char>, attrs: Seq<AttrModel> },
    Text(Seq<char>),
    Comment,
}

impl View for NodeData {
    type V = DataModel;

    open spec fn view(&self) -> DataModel {
        match self {
            NodeData::Document => DataModel::Document,
            NodeData::Element { prefix, ns, local, attrs } => DataModel::Element {
                prefix: opt_seq(*prefix),
                ns: ns@,
                local: local@,
                attrs: attrs@.map_values(|a: Attribute| a@),
            },
            NodeData::Text { content } => DataModel::Text(content@),
            NodeData::Comment => DataModel::Comment,
        }
    }
}

/// A node of the arena: what it is, its parent, and its children in order.
#[derive(Debug)]
pub struct DomNode {
    pub data: NodeData,
    pub parent: Option<usize>,
    pub children: Vec<usize>,
}

pub struct NodeModel {
    pub data: DataModel,
    pub parent: Option<usize>,
    pub children: Seq<usize>,
}

impl View for DomNode {
    type V = NodeModel;

    open spec fn view(&self) -> NodeModel {
        NodeModel { data: self.data@, parent: self.parent, children: self.children@ }
    }
}

pub open spec fn slot_view(n: Option<DomNode>) -> Option<NodeModel> {
    match n {
        Some(x) => Some(x@),
        None => None,
    }
}

/// Whether the arena holds a node at an index.
pub open spec fn live(t: Seq<Option<NodeModel>>, i: int) -> bool {
    0 <= i < t.len() && t[i] is Some
}

pub open spec fn node(t: Seq<Option<NodeModel>>, i: int) -> NodeModel {
    t[i]->0
}

/// The arena's invariant: node 0 is the document and has no parent; among
/// the nodes held, a node's parent lists it among its children, a child
/// names its parent, and no child is listed twice.
pub open spec fn tree_wf(t: Seq<Option<NodeModel>>) -> bool {
    &&& t.len() <= usize::MAX
    &&& live(t, 0)
    &&& node(t, 0).data is Document
    &&& node(t, 0).parent is None
    &&& forall|i: int| #![trigger t[i]] live(t, i) && node(t, i).parent is Some ==> node(t, i).parent->0 < t.len()
    &&& forall|i: int| #![trigger t[i]] live(t, i) ==> node(t, i).parent != Some(i as usize)
    &&& forall|p: int, k: int|
        #![trigger node(t, p).children[k]]
        live(t, p) && 0 <= k < node(t, p).children.len() ==> node(t, p).children[k] < t.len()
    &&& forall|i: int|
        #![trigger t[i]]
        live(t, i) && node(t, i).parent is Some && live(t, node(t, i).parent->0 as int) ==> node(
            t,
            node(t, i).parent->0 as int,
        ).children.contains(i as usize)
    &&& forall|p: int, k: int|
        #![trigger node(t, p).children[k]]
        live(t, p) && 0 <= k < node(t, p).children.len() && live(t, node(t, p).children[k] as int)
            ==> node(t, node(t, p).children[k] as int).parent == Some(p as usize)
    &&& forall|p: int| #![trigger t[p]] live(t, p) ==> node(t, p).children.no_duplicates()
}


/// The tree with a node detached from its parent: it leaves its parent's
/// children and has no parent.
pub open spec fn detach_spec(t: Seq<Option<NodeModel>>, id: int) -> Seq<Option<NodeModel>> {
    let t1 = match parent_of(t, id) {
        Some(p) => if live(t, p as int) {
            t.update(
                p as int,
                Some(NodeModel { children: without(node(t, p as int).children, is_id(id as usize)), ..node(t, p as int) }),
            )
        } else {
            t
        },
        None => t,
    };
    t1.update(id, Some(NodeModel { parent: None, ..node(t1, id) }))
}

/// The tree with a detached node placed among a parent's children at an
/// index.
pub open spec fn attach_spec(t: Seq<Option<NodeModel>>, n: int, parent: int, index: int) -> Seq<Option<NodeModel>> {
    let t1 = t.update(
        parent,
        Some(NodeModel { children: node(t, parent).children.insert(index, n as usize), ..node(t, parent) }),
    );
    t1.update(n, Some(NodeModel { parent: Some(parent as usize), ..node(t1, n) }))
}

/// Where a node goes among a parent's children: before the reference
/// child, or last.
pub open spec fn insertion_index(t: Seq<Option<NodeModel>>, parent: int, reference: Option<usize>) -> int {
    match reference {
        Some(r) => first_match(children_of(t, parent), is_id(r)),
        None => children_of(t, parent).len() as int,
    }
}

/// The insert algorithm for one node: it leaves its old parent and is
/// placed among the new parent's children before the reference child, or
/// last.
pub open spec fn insert_spec(t: Seq<Option<NodeModel>>, n: int, parent: int, reference: Option<usize>) -> Seq<Option<NodeModel>> {
    let t1 = detach_spec(t, n);
    attach_spec(t1, n, parent, insertion_index(t1, parent, reference))
}

/// Removing the matches of a predicate keeps a list free of duplicates and
/// takes nothing in.
pub proof fn lemma_without_sub<T>(s: Seq<T>, p: spec_fn(T) -> bool)
    ensures
        forall|x: T| without(s, p).contains(x) ==> s.contains(x) && !p(x),
        s.no_duplicates() ==> without(s, p).no_duplicates(),
        forall|x: T| s.contains(x) && !p(x) ==> without(s, p).contains(x),
    decreases s.len(),
{
    if s.len() > 0 {
        let t = s.drop_first();
        lemma_without_sub(t, p);
        let w = without(t, p);
        assert forall|x: T| t.contains(x) implies s.contains(x) by {
            let m = choose|m: int| 0 <= m < t.len() && t[m] == x;
            assert(s[m + 1] == x);
        }
        if !p(s[0]) {
            let r = seq![s[0]] + w;
            assert forall|x: T| r.contains(x) implies s.contains(x) && !p(x) by {
                let k = choose|k: int| 0 <= k < r.len() && r[k] == x;
                if k > 0 {
                    assert(r[k] == w[k - 1]);
                    assert(w.contains(x));
                } else {
                    assert(s[0] == x);
                }
            }
            if s.no_duplicates() {
                assert(t.no_duplicates()) by {
                    assert forall|i: int, j: int| 0 <= i < t.len() && 0 <= j < t.len() && i != j implies t[i] != t[j] by {
                        assert(t[i] == s[i + 1] && t[j] == s[j + 1]);
                    }
                }
                assert forall|i: int, j: int| 0 <= i < r.len() && 0 <= j < r.len() && i != j implies r[i] != r[j] by {
                    if i > 0 && j > 0 {
                        assert(r[i] == w[i - 1] && r[j] == w[j - 1]);
                    } else {
                        let k = if i == 0 { j } else { i };
                        assert(r[k] == w[k - 1]);
                        assert(w.contains(w[k - 1]));
                        assert(t.contains(w[k - 1]));
                        let m = choose|m: int| 0 <= m < t.len() && t[m] == w[k - 1];
                        assert(s[m + 1] == t[m]);
                    }
                }
            }
            assert forall|x: T| s.contains(x) && !p(x) implies r.contains(x) by {
                let k = choose|k: int| 0 <= k < s.len() && s[k] == x;
                if k == 0 {
                    assert(r[0] == x);
                } else {
                    assert(t[k - 1] == x);
                    assert(t.contains(x));
                    assert(w.contains(x));
                    let m = choose|m: int| 0 <= m < w.len() && w[m] == x;
                    assert(r[m + 1] == x);
                }
            }
        } else {
            if s.no_duplicates() {
                assert(t.no_duplicates()) by {
                    assert forall|i: int, j: int| 0 <= i < t.len() && 0 <= j < t.len() && i != j implies t[i] != t[j] by {
                        assert(t[i] == s[i + 1] && t[j] == s[j + 1]);
                    }
                }
            }
            assert forall|x: T| s.contains(x) && !p(x) implies w.contains(x) by {
                let k = choose|k: int| 0 <= k < s.len() && s[k] == x;
                assert(k != 0);
                assert(t[k - 1] == x);
                assert(t.contains(x));
            }
        }
    }
}

/// Detaching a node keeps the tree well formed.
pub proof fn lemma_detach_wf(t: Seq<Option<NodeModel>>, id: int)
    requires
        tree_wf(t),
        live(t, id),
        id != 0,
    ensures
        tree_wf(detach_spec(t, id)),
        detach_spec(t, id).len() == t.len(),
        forall|i: int| #![trigger detach_spec(t, id)[i]] live(detach_spec(t, id), i) <==> live(t, i),
        forall|i: int| #![trigger detach_spec(t, id)[i]] live(t, i) ==> node(detach_spec(t, id), i).data == node(t, i).data,
{
    let t2 = detach_spec(t, id);
    match parent_of(t, id) {
        Some(p) => {
            if live(t, p as int) {
                lemma_without_sub(node(t, p as int).children, is_id(id as usize));
                let t1 = t.update(
                    p as int,
                    Some(NodeModel { children: without(node(t, p as int).children, is_id(id as usize)), ..node(t, p as int) }),
                );
                assert forall|i: int| #![trigger t2[i]] live(t2, i) && node(t2, i).parent is Some && live(t2, node(t2, i).parent->0 as int) implies node(t2, node(t2, i).parent->0 as int).children.contains(i as usize) by {
                    let q = node(t2, i).parent->0 as int;
                    assert(i != id);
                    assert(node(t, i).parent == Some(q as usize));
                    assert(t[i] == t2[i] || i == p);
                    assert(node(t, q).children.contains(i as usize));
                    if q == p {
                        assert(!is_id(id as usize)(i as usize));
                    }
                }
                assert forall|q: int, k: int| #![trigger node(t2, q).children[k]] live(t2, q) && 0 <= k < node(t2, q).children.len() && live(t2, node(t2, q).children[k] as int) implies node(t2, node(t2, q).children[k] as int).parent == Some(q as usize) by {
                    let c = node(t2, q).children[k];
                    if q == p {
                        assert(node(t2, q).children == without(node(t, p as int).children, is_id(id as usize)));
                        assert(node(t2, q).children.contains(c));
                        assert(node(t, q).children.contains(c));
                        let m = choose|m: int| 0 <= m < node(t, q).children.len() && node(t, q).children[m] == c;
                        assert(node(t, q).children[m] == c);
                        assert(c != id as usize);
                    } else {
                        assert(node(t2, q).children == node(t, q).children);
                        if c == id as usize {
                            assert(node(t, q).children[k] == c);
                            assert(node(t, id).parent == Some(q as usize));
                            assert(false);
                        }
                    }
                }
                assert forall|q: int, k: int| #![trigger node(t2, q).children[k]] live(t2, q) && 0 <= k < node(t2, q).children.len() implies node(t2, q).children[k] < t2.len() by {
                    if q == p {
                        let c = node(t2, q).children[k];
                        assert(node(t2, q).children == without(node(t, p as int).children, is_id(id as usize)));
                        assert(node(t2, q).children.contains(c));
                        assert(node(t, q).children.contains(c));
                        let m = choose|m: int| 0 <= m < node(t, q).children.len() && node(t, q).children[m] == c;
                        assert(node(t, q).children[m] == c);
                    } else {
                        assert(node(t2, q).children == node(t, q).children);
                    }
                }
            } else {
                assert forall|q: int, k: int| #![trigger node(t2, q).children[k]] live(t2, q) && 0 <= k < node(t2, q).children.len() && live(t2, node(t2, q).children[k] as int) implies node(t2, node(t2, q).children[k] as int).parent == Some(q as usize) by {
                    let c = node(t2, q).children[k];
                    assert(node(t2, q).children == node(t, q).children);
                    if c == id as usize {
                        assert(node(t, q).children[k] == c);
                        assert(node(t, id).parent == Some(q as usize));
                        assert(false);
                    }
                }
                assert forall|q: int, k: int| #![trigger node(t2, q).children[k]] live(t2, q) && 0 <= k < node(t2, q).children.len() implies node(t2, q).children[k] < t2.len() by {
                    assert(node(t2, q).children == node(t, q).children);
                }
            }
        },
        None => {
            assert forall|q: int, k: int| #![trigger node(t2, q).children[k]] live(t2, q) && 0 <= k < node(t2, q).children.len() && live(t2, node(t2, q).children[k] as int) implies node(t2, node(t2, q).children[k] as int).parent == Some(q as usize) by {
                let c = node(t2, q).children[k];
                assert(node(t2, q).children == node(t, q).children);
                if c == id as usize {
                    assert(node(t, q).children[k] == c);
                    assert(node(t, id).parent == Some(q as usize));
                    assert(false);
                }
            }
            assert forall|q: int, k: int| #![trigger node(t2, q).children[k]] live(t2, q) && 0 <= k < node(t2, q).children.len() implies node(t2, q).children[k] < t2.len() by {
                assert(node(t2, q).children == node(t, q).children);
            }
        },
    }
}

/// Attaching a detached node under a parent, at an index within its
/// children, keeps the tree well formed.
pub proof fn lemma_attach_wf(t: Seq<Option<NodeModel>>, n: int, parent: int, index: int)
    requires
        tree_wf(t),
        live(t, n),
        n != 0,
        n != parent,
        live(t, parent),
        node(t, n).parent is None,
        0 <= index <= node(t, parent).children.len(),
    ensures
        tree_wf(attach_spec(t, n, parent, index)),
        attach_spec(t, n, parent, index).len() == t.len(),
        forall|i: int| #![trigger attach_spec(t, n, parent, index)[i]] live(attach_spec(t, n, parent, index), i) <==> live(t, i),
        forall|i: int| #![trigger attach_spec(t, n, parent, index)[i]] live(t, i) ==> node(attach_spec(t, n, parent, index), i).data == node(t, i).data,
        !node(t, parent).children.contains(n as usize),
{
    let cs = node(t, parent).children;
    assert(!cs.contains(n as usize)) by {
        if cs.contains(n as usize) {
            let m = choose|m: int| 0 <= m < cs.len() && cs[m] == n as usize;
            assert(node(t, parent).children[m] == n as usize);
        }
    }
    let ncs = cs.insert(index, n as usize);
    let t1 = t.update(parent, Some(NodeModel { children: ncs, ..node(t, parent) }));
    let t2 = attach_spec(t, n, parent, index);
    assert forall|x: usize| ncs.contains(x) implies x == n as usize || cs.contains(x) by {
        let m = choose|m: int| 0 <= m < ncs.len() && ncs[m] == x;
        if m < index {
            assert(cs[m] == x);
        } else if m > index {
            assert(cs[m - 1] == x);
        }
    }
    assert forall|x: usize| cs.contains(x) implies ncs.contains(x) by {
        let m = choose|m: int| 0 <= m < cs.len() && cs[m] == x;
        if m < index {
            assert(ncs[m] == x);
        } else {
            assert(ncs[m + 1] == x);
        }
    }
    assert(ncs.no_duplicates()) by {
        assert forall|i: int, j: int| 0 <= i < ncs.len() && 0 <= j < ncs.len() && i != j implies ncs[i] != ncs[j] by {
            if i == index {
                assert(ncs[i] == n as usize);
                if j < index {
                    assert(ncs[j] == cs[j]);
                } else {
                    assert(ncs[j] == cs[j - 1]);
                }
            } else if j == index {
                assert(ncs[j] == n as usize);
                if i < index {
                    assert(ncs[i] == cs[i]);
                } else {
                    assert(ncs[i] == cs[i - 1]);
                }
            } else {
                let a = if i < index { i } else { i - 1 };
                let b = if j < index { j } else { j - 1 };
                assert(ncs[i] == cs[a]);
                assert(ncs[j] == cs[b]);
            }
        }
    }
    assert forall|i: int| #![trigger t2[i]] live(t2, i) && node(t2, i).parent is Some && live(t2, node(t2, i).parent->0 as int) implies node(t2, node(t2, i).parent->0 as int).children.contains(i as usize) by {
        if i == n {
            assert(ncs[index] == n as usize);
        } else {
            let q = node(t, i).parent->0 as int;
            assert(node(t, q).children.contains(i as usize));
            if q == parent {
                assert(ncs.contains(i as usize));
            }
        }
    }
    assert forall|q: int, k: int| #![trigger node(t2, q).children[k]] live(t2, q) && 0 <= k < node(t2, q).children.len() && live(t2, node(t2, q).children[k] as int) implies node(t2, node(t2, q).children[k] as int).parent == Some(q as usize) by {
        let c = node(t2, q).children[k];
        if q == parent {
            assert(ncs.contains(c));
            if c != n as usize {
                assert(cs.contains(c));
                let m = choose|m: int| 0 <= m < cs.len() && cs[m] == c;
                assert(node(t, parent).children[m] == c);
            }
        } else {
            assert(node(t2, q).children == node(t, q).children);
            if c == n as usize {
                assert(node(t, q).children[k] == c);
                assert(node(t, n).parent == Some(q as usize));
            }
        }
    }
    assert forall|q: int, k: int| #![trigger node(t2, q).children[k]] live(t2, q) && 0 <= k < node(t2, q).children.len() implies node(t2, q).children[k] < t2.len() by {
        if q == parent {
            let c = ncs[k];
            assert(ncs.contains(c));
            if c != n as usize {
                let m = choose|m: int| 0 <= m < cs.len() && cs[m] == c;
                assert(node(t, parent).children[m] == c);
            }
        } else {
            assert(node(t2, q).children == node(t, q).children);
        }
    }
    assert forall|q: int| #![trigger t2[q]] live(t2, q) implies node(t2, q).children.no_duplicates() by {
        if q != parent {
            assert(node(t2, q).children == node(t, q).children);
        }
    }
}


pub open spec fn is_document_or_element(t: Seq<Option<NodeModel>>, i: int) -> bool {
    live(t, i) && (node(t, i).data is Document || node(t, i).data is Element)
}

/// Element, Text and Comment nodes can be inserted.
pub open spec fn is_pre_insertable(t: Seq<Option<NodeModel>>, i: int) -> bool {
    live(t, i) && (node(t, i).data is Element || node(t, i).data is Text || node(t, i).data is Comment)
}

pub open spec fn has_element_child(t: Seq<Option<NodeModel>>, p: int) -> bool {
    exists|k: int|
        0 <= k < children_of(t, p).len() && live(t, #[trigger] children_of(t, p)[k] as int) && node(
            t,
            children_of(t, p)[k] as int,
        ).data is Element
}

/// The error that ensuring pre-insertion validity of `n` into `parent`
/// before `child` throws, by name, or none.
pub open spec fn pre_insertion_error(t: Seq<Option<NodeModel>>, n: int, parent: int, child: Option<usize>) -> Option<Seq<char>> {
    if !is_document_or_element(t, parent) {
        Some("HierarchyRequestError"@)
    } else if is_inclusive_ancestor_spec(t, n, parent) {
        Some("HierarchyRequestError"@)
    } else if child is Some && parent_of(t, child->0 as int) != Some(parent as usize) {
        Some("NotFoundError"@)
    } else if !is_pre_insertable(t, n) {
        Some("HierarchyRequestError"@)
    } else if node(t, n).data is Text && node(t, parent).data is Document {
        Some("HierarchyRequestError"@)
    } else if !(node(t, parent).data is Document) {
        None
    } else if node(t, n).data is Element && has_element_child(t, parent) {
        Some("HierarchyRequestError"@)
    } else {
        None
    }
}

/// The reference child pre-insertion inserts before: the given child, or
/// the node's next sibling where the child is the node itself.
pub open spec fn reference_child(t: Seq<Option<NodeModel>>, n: int, child: Option<usize>) -> Option<usize> {
    if child == Some(n as usize) {
        next_sibling_spec(t, n)
    } else {
        child
    }
}

/// The tree after pre-inserting `n` into `parent` before `child`, where
/// that is valid.
pub open spec fn pre_insert_spec(t: Seq<Option<NodeModel>>, n: int, parent: int, child: Option<usize>) -> Seq<Option<NodeModel>> {
    insert_spec(t, n, parent, reference_child(t, n, child))
}


/// The nodes of the subtree rooted at a node, in tree order, following
/// children at most `fuel` levels deep.
pub open spec fn subtree_ids(t: Seq<Option<NodeModel>>, id: usize, fuel: nat) -> Seq<usize>
    decreases fuel, 0nat,
{
    if fuel == 0 || !live(t, id as int) {
        Seq::empty()
    } else {
        seq![id] + forest_ids(t, node(t, id as int).children, (fuel - 1) as nat)
    }
}

/// The nodes of the subtrees rooted at a list of nodes, in tree order.
pub open spec fn forest_ids(t: Seq<Option<NodeModel>>, cs: Seq<usize>, fuel: nat) -> Seq<usize>
    decreases fuel, cs.len(),
{
    if cs.len() == 0 {
        Seq::empty()
    } else {
        forest_ids(t, cs.drop_last(), fuel) + subtree_ids(t, cs.last(), fuel)
    }
}

/// The text of a node's descendant text nodes, in tree order (a text
/// node's own data), following children at most `fuel` levels deep.
pub open spec fn text_of(t: Seq<Option<NodeModel>>, id: usize, fuel: nat) -> Seq<char>
    decreases fuel, 0nat,
{
    if fuel == 0 || !live(t, id as int) {
        Seq::empty()
    } else {
        match node(t, id as int).data {
            DataModel::Text(c) => c,
            _ => forest_text(t, node(t, id as int).children, (fuel - 1) as nat),
        }
    }
}

pub open spec fn forest_text(t: Seq<Option<NodeModel>>, cs: Seq<usize>, fuel: nat) -> Seq<char>
    decreases fuel, cs.len(),
{
    if cs.len() == 0 {
        Seq::empty()
    } else {
        forest_text(t, cs.drop_last(), fuel) + text_of(t, cs.last(), fuel)
    }
}

/// Every node listed that the arena holds heads its own subtree, so it is
/// among the nodes of the forest.
pub proof fn lemma_forest_holds_roots(t: Seq<Option<NodeModel>>, cs: Seq<usize>, fuel: nat)
    requires
        fuel >= 1,
    ensures
        forall|c: usize| cs.contains(c) && live(t, c as int) ==> forest_ids(t, cs, fuel).contains(c),
    decreases cs.len(),
{
    if cs.len() > 0 {
        let p = cs.drop_last();
        lemma_forest_holds_roots(t, p, fuel);
        let f = forest_ids(t, cs, fuel);
        let fp = forest_ids(t, p, fuel);
        let st = subtree_ids(t, cs.last(), fuel);
        assert forall|c: usize| cs.contains(c) && live(t, c as int) implies f.contains(c) by {
            let k = choose|k: int| 0 <= k < cs.len() && cs[k] == c;
            if k < cs.len() - 1 {
                assert(p[k] == c);
                assert(p.contains(c));
                assert(fp.contains(c));
                let m = choose|m: int| 0 <= m < fp.len() && fp[m] == c;
                assert(f[m] == c);
            } else {
                assert(st[0] == c);
                assert(f[fp.len() as int] == c);
            }
        }
    }
}

/// The arena with the listed nodes dropped, the document and `keep`
/// excepted.
pub open spec fn drop_ids(t: Seq<Option<NodeModel>>, ids: Seq<usize>, keep: int) -> Seq<Option<NodeModel>> {
    Seq::new(t.len(), |i: int| if i != 0 && i != keep && ids.contains(i as usize) { None } else { t[i] })
}

/// Removing and dropping all the children of a node: its list is emptied
/// and its subtrees leave the arena.
pub open spec fn drop_children_spec(t: Seq<Option<NodeModel>>, parent: int) -> Seq<Option<NodeModel>> {
    let ids = forest_ids(t, node(t, parent).children, t.len());
    drop_ids(t.update(parent, Some(NodeModel { children: Seq::empty(), ..node(t, parent) })), ids, parent)
}

/// String replace all within a node: its children are dropped and, for a
/// non-empty string, a new text node holding it becomes its only child.
pub open spec fn replace_all_spec(t: Seq<Option<NodeModel>>, parent: int, s: Seq<char>) -> Seq<Option<NodeModel>> {
    if !live(t, parent) {
        t
    } else if s.len() > 0 {
        let t1 = t.push(Some(NodeModel { data: DataModel::Text(s), parent: None, children: Seq::empty() }));
        attach_spec(drop_children_spec(t1, parent), t.len() as int, parent, 0)
    } else {
        drop_children_spec(t, parent)
    }
}

/// Setting a text node's data.
pub open spec fn set_text_spec(t: Seq<Option<NodeModel>>, id: int, s: Seq<char>) -> Seq<Option<NodeModel>> {
    t.update(id, Some(NodeModel { data: DataModel::Text(s), ..node(t, id) }))
}

/// The set text content algorithm: an element's children are replaced by
/// the string, a text node's data is set, other nodes are left alone.
pub open spec fn set_text_content_spec(t: Seq<Option<NodeModel>>, id: int, s: Seq<char>) -> Seq<Option<NodeModel>> {
    if !live(t, id) {
        t
    } else {
        match node(t, id).data {
            DataModel::Element { .. } => replace_all_spec(t, id, s),
            DataModel::Text(_) => set_text_spec(t, id, s),
            _ => t,
        }
    }
}

/// The get text content algorithm: an element's descendant text, a text
/// node's data, nothing for the others.
pub open spec fn get_text_content_spec(t: Seq<Option<NodeModel>>, id: int) -> Option<Seq<char>> {
    if !live(t, id) {
        None
    } else {
        match node(t, id).data {
            DataModel::Element { .. } => Some(text_of(t, id as usize, t.len())),
            DataModel::Text(c) => Some(c),
            _ => None,
        }
    }
}


pub open spec fn attrs_view(v: Seq<Attribute>) -> Seq<AttrModel> {
    v.map_values(|a: Attribute| a@)
}

/// An attribute's qualified name: prefix, colon and local name, or the
/// local name alone.
pub open spec fn attr_qualified_name(a: AttrModel) -> Seq<char> {
    match a.prefix {
        Some(p) => p + ":"@ + a.local,
        None => a.local,
    }
}

pub open spec fn attr_named(q: Seq<char>) -> spec_fn(AttrModel) -> bool {
    |a: AttrModel| attr_qualified_name(a) == q
}

pub open spec fn attr_is(prefix: Option<Seq<char>>, ns: Seq<char>, local: Seq<char>) -> spec_fn(AttrModel) -> bool {
    |a: AttrModel| a.prefix == prefix && a.ns == ns && a.local == local
}

pub open spec fn attr_local_is(local: Seq<char>) -> spec_fn(AttrModel) -> bool {
    |a: AttrModel| a.local == local
}

/// The value of an element's first attribute with the local name.
pub open spec fn attr_by_local_spec(t: Seq<Option<NodeModel>>, id: int, local: Seq<char>) -> Option<Seq<char>> {
    let attrs = element_attrs(t, id);
    let i = first_match(attrs, attr_local_is(local));
    if i >= 0 {
        Some(attrs[i].value)
    } else {
        None
    }
}

/// The attributes of an element, or none for another node.
pub open spec fn element_attrs(t: Seq<Option<NodeModel>>, id: int) -> Seq<AttrModel> {
    if live(t, id) && node(t, id).data is Element {
        node(t, id).data->attrs
    } else {
        Seq::empty()
    }
}

pub open spec fn is_html_element(t: Seq<Option<NodeModel>>, id: int) -> bool {
    live(t, id) && node(t, id).data is Element && node(t, id).data->Element_ns == html_ns()
}

/// An attribute name as looked up on an element: ASCII-lowercased on an
/// HTML element.
pub open spec fn normalized_name(t: Seq<Option<NodeModel>>, id: int, q: Seq<char>) -> Seq<char> {
    if is_html_element(t, id) {
        ascii_lower_seq(q)
    } else {
        q
    }
}

/// getAttribute(): the value of the first attribute whose qualified name
/// is the normalized name.
pub open spec fn get_attribute_spec(t: Seq<Option<NodeModel>>, id: int, q: Seq<char>) -> Option<Seq<char>> {
    let attrs = element_attrs(t, id);
    let i = first_match(attrs, attr_named(normalized_name(t, id, q)));
    if i >= 0 {
        Some(attrs[i].value)
    } else {
        None
    }
}

/// The element with its attributes replaced.
pub open spec fn with_attrs(t: Seq<Option<NodeModel>>, id: int, attrs: Seq<AttrModel>) -> Seq<Option<NodeModel>> {
    let d = node(t, id).data;
    t.update(
        id,
        Some(
            NodeModel {
                data: DataModel::Element { prefix: d->Element_prefix, ns: d->Element_ns, local: d->Element_local, attrs },
                ..node(t, id)
            },
        ),
    )
}

/// Setting an attribute by its qualified name parts: the first attribute
/// with that name takes the value, or a new one is appended.
pub open spec fn set_attr_spec(
    t: Seq<Option<NodeModel>>,
    id: int,
    prefix: Option<Seq<char>>,
    ns: Seq<char>,
    local: Seq<char>,
    value: Seq<char>,
) -> Seq<Option<NodeModel>> {
    if !(live(t, id) && node(t, id).data is Element) {
        t
    } else {
        let attrs = element_attrs(t, id);
        let i = first_match(attrs, attr_is(prefix, ns, local));
        if i >= 0 {
            with_attrs(t, id, attrs.update(i, AttrModel { value, ..attrs[i] }))
        } else {
            with_attrs(t, id, attrs.push(AttrModel { prefix, ns, local, value }))
        }
    }
}

/// setAttribute() on an element: the first attribute whose qualified name
/// is the given name takes the value, whatever its prefix and namespace;
/// without one, a new attribute with that local name and no prefix or
/// namespace is appended.
pub open spec fn set_attr_by_name_spec(
    t: Seq<Option<NodeModel>>,
    id: int,
    q: Seq<char>,
    value: Seq<char>,
) -> Seq<Option<NodeModel>> {
    if !(live(t, id) && node(t, id).data is Element) {
        t
    } else {
        let attrs = element_attrs(t, id);
        let i = first_match(attrs, attr_named(q));
        if i >= 0 {
            with_attrs(t, id, attrs.update(i, AttrModel { value, ..attrs[i] }))
        } else {
            with_attrs(t, id, attrs.push(AttrModel { prefix: None, ns: Seq::empty(), local: q, value }))
        }
    }
}

/// removeAttribute(): the attributes with the name of the first one whose
/// qualified name is the normalized name are removed.
pub open spec fn remove_attribute_spec(t: Seq<Option<NodeModel>>, id: int, q: Seq<char>) -> Seq<Option<NodeModel>> {
    let attrs = element_attrs(t, id);
    let i = first_match(attrs, attr_named(normalized_name(t, id, q)));
    if i < 0 {
        t
    } else {
        with_attrs(t, id, without(attrs, attr_is(attrs[i].prefix, attrs[i].ns, attrs[i].local)))
    }
}

/// A qualified name split at its first colon into prefix and local name.
pub open spec fn split_qualified_spec(q: Seq<char>) -> (Option<Seq<char>>, Seq<char>) {
    let i = first_match(q, |c: char| c == ':');
    if i >= 0 {
        (Some(q.take(i)), q.skip(i + 1))
    } else {
        (None, q)
    }
}

/// The canonical value of the dir attribute of a document element.
pub open spec fn canonical_dir_spec(v: Seq<char>) -> Seq<char> {
    if eq_ignore_ascii_case(v, "ltr"@) {
        "ltr"@
    } else if eq_ignore_ascii_case(v, "rtl"@) {
        "rtl"@
    } else if eq_ignore_ascii_case(v, "auto"@) {
        "auto"@
    } else {
        Seq::empty()
    }
}


pub open spec fn element_in(t: Seq<Option<NodeModel>>) -> spec_fn(usize) -> bool {
    |c: usize| live(t, c as int) && node(t, c as int).data is Element
}

/// The document element: the first child of the document that is an
/// element.
pub open spec fn document_element_spec(t: Seq<Option<NodeModel>>) -> Option<usize> {
    let i = first_match(children_of(t, 0), element_in(t));
    if i >= 0 {
        Some(children_of(t, 0)[i])
    } else {
        None
    }
}


/// insertAdjacentText(): the state after, and the error thrown by name.
/// The text node is created first, and stays in the arena, detached, when
/// an error is thrown.
pub open spec fn insert_adjacent_text_spec(t: Seq<Option<NodeModel>>, id: int, position: Seq<char>, data: Seq<char>) -> (
    Seq<Option<NodeModel>>,
    Option<Seq<char>>,
) {
    if !live(t, id) {
        (t, None)
    } else {
        let t1 = t.push(Some(NodeModel { data: DataModel::Text(data), parent: None, children: Seq::empty() }));
        let text = t.len() as int;
        let parent = node(t, id).parent;
        if eq_ignore_ascii_case(position, "beforebegin"@) || eq_ignore_ascii_case(position, "afterend"@) {
            if parent == Some(0usize) {
                (t1, Some("HierarchyRequestError"@))
            } else if parent is Some && live(t1, parent->0 as int) {
                let p = parent->0 as int;
                let i = first_match(children_of(t1, p), is_id(id as usize));
                (attach_spec(t1, text, p, if eq_ignore_ascii_case(position, "beforebegin"@) { i } else { i + 1 }), None)
            } else {
                (t1, None)
            }
        } else if eq_ignore_ascii_case(position, "afterbegin"@) {
            (attach_spec(t1, text, id, 0), None)
        } else if eq_ignore_ascii_case(position, "beforeend"@) {
            (attach_spec(t1, text, id, node(t1, id).children.len() as int), None)
        } else {
            (t1, Some("SyntaxError"@))
        }
    }
}

/// The node slots of a DOM tree.
struct NodeArena {
    nodes: Vec<Option<DomNode>>,
}

impl View for NodeArena {
    type V = Seq<Option<NodeModel>>;

    closed spec fn view(&self) -> Seq<Option<NodeModel>> {
        self.nodes@.map_values(|n: Option<DomNode>| slot_view(n))
    }
}

/// The node type of a node: zero where the arena holds none.
pub open spec fn node_type_spec(t: Seq<Option<NodeModel>>, id: int) -> u16 {
    if !live(t, id) {
        0
    } else {
        match node(t, id).data {
            DataModel::Document => 9,
            DataModel::Element { .. } => 1,
            DataModel::Text(_) => 3,
            DataModel::Comment => 8,
        }
    }
}

/// The node name: the uppercased local name of an HTML element, the local
/// name of another element, and the fixed names of the other nodes.
pub open spec fn node_name_spec(t: Seq<Option<NodeModel>>, id: int) -> Seq<char> {
    if !live(t, id) {
        Seq::empty()
    } else {
        match node(t, id).data {
            DataModel::Document => "#document"@,
            DataModel::Element { ns, local, .. } => if ns == html_ns() {
                ascii_upper_seq(local)
            } else {
                local
            },
            DataModel::Text(_) => "#text"@,
            DataModel::Comment => "#comment"@,
        }
    }
}

/// The node value: a text node's data, the empty string for a comment,
/// nothing for the others.
pub open spec fn node_value_spec(t: Seq<Option<NodeModel>>, id: int) -> Option<Seq<char>> {
    if !live(t, id) {
        None
    } else {
        match node(t, id).data {
            DataModel::Text(c) => Some(c),
            DataModel::Comment => Some(Seq::empty()),
            _ => None,
        }
    }
}

/// The children of a node, or none where the arena holds no node there.
pub open spec fn children_of(t: Seq<Option<NodeModel>>, id: int) -> Seq<usize> {
    if live(t, id) {
        node(t, id).children
    } else {
        Seq::empty()
    }
}

pub open spec fn parent_of(t: Seq<Option<NodeModel>>, id: int) -> Option<usize> {
    if live(t, id) {
        node(t, id).parent
    } else {
        None
    }
}

pub open spec fn is_id(id: usize) -> spec_fn(usize) -> bool {
    |x: usize| x == id
}

/// The index of a node among its parent's children (its first listing),
/// where it has a parent held in the arena and is listed there; -1
/// otherwise.
pub open spec fn index_in_parent(t: Seq<Option<NodeModel>>, id: int) -> int {
    match parent_of(t, id) {
        Some(p) => if live(t, p as int) {
            first_match(children_of(t, p as int), is_id(id as usize))
        } else {
            -1
        },
        None => -1,
    }
}

pub open spec fn previous_sibling_spec(t: Seq<Option<NodeModel>>, id: int) -> Option<usize> {
    let i = index_in_parent(t, id);
    if i >= 1 {
        Some(children_of(t, parent_of(t, id)->0 as int)[i - 1])
    } else {
        None
    }
}

pub open spec fn next_sibling_spec(t: Seq<Option<NodeModel>>, id: int) -> Option<usize> {
    let i = index_in_parent(t, id);
    let c = children_of(t, parent_of(t, id)->0 as int);
    if i >= 0 && i + 1 < c.len() {
        Some(c[i + 1])
    } else {
        None
    }
}

/// Following the parent `k` times from `d`.
pub open spec fn ancestor_at(t: Seq<Option<NodeModel>>, d: int, k: nat) -> Option<usize>
    decreases k,
{
    if k == 0 {
        Some(d as usize)
    } else {
        match ancestor_at(t, d, (k - 1) as nat) {
            Some(a) => parent_of(t, a as int),
            None => None,
        }
    }
}

/// `a` is an inclusive ancestor of `d`: it is reached from `d` by following
/// parents, within as many steps as the arena has slots.
pub open spec fn is_inclusive_ancestor_spec(t: Seq<Option<NodeModel>>, a: int, d: int) -> bool {
    exists|k: nat| k <= t.len() && #[trigger] ancestor_at(t, d, k) == Some(a as usize)
}

impl NodeArena {
    /// A tree holding only the document node.
    pub fn new() -> (t: Self)
        ensures
            tree_wf(t@),
            t@.len() == 1,
            node(t@, 0).children.len() == 0,
    {
        let mut nodes: Vec<Option<DomNode>> = Vec::new();
        nodes.push(Some(DomNode { data: NodeData::Document, parent: None, children: Vec::new() }));
        let t = NodeArena { nodes };
        assert(t@.len() == 1);
        assert(t@[0] == slot_view(t.nodes@[0]));
        t
    }


    proof fn lemma_view_update(&self, old_nodes: Seq<Option<DomNode>>, i: int, n: Option<DomNode>)
        requires
            0 <= i < old_nodes.len(),
            self.nodes@ == old_nodes.update(i, n),
        ensures
            self@ == old_nodes.map_values(|n: Option<DomNode>| slot_view(n)).update(i, slot_view(n)),
    {
        assert(self@ =~= old_nodes.map_values(|n: Option<DomNode>| slot_view(n)).update(i, slot_view(n)));
    }

    /// Takes the node at an index out of the arena, leaving the slot empty.
    fn take_slot(&mut self, i: usize) -> (n: Option<DomNode>)
        requires
            i < old(self)@.len(),
        ensures
            slot_view(n) == old(self)@[i as int],
            final(self)@ == old(self)@.update(i as int, None),
    {
        let ghost old_nodes = self.nodes@;
        let mut tmp: Option<DomNode> = None;
        std::mem::swap(&mut tmp, &mut self.nodes[i]);
        proof {
            self.lemma_view_update(old_nodes, i as int, None);
            assert(old(self)@ == old_nodes.map_values(|n: Option<DomNode>| slot_view(n)));
            assert(old(self)@[i as int] == slot_view(old_nodes[i as int]));
        }
        tmp
    }

    /// Puts a node in a slot of the arena.
    fn set_slot(&mut self, i: usize, n: Option<DomNode>)
        requires
            i < old(self)@.len(),
        ensures
            final(self)@ == old(self)@.update(i as int, slot_view(n)),
    {
        let ghost old_nodes = self.nodes@;
        self.nodes.set(i, n);
        proof {
            self.lemma_view_update(old_nodes, i as int, n);
            assert(old(self)@ == old_nodes.map_values(|n: Option<DomNode>| slot_view(n)));
        }
    }

    /// Detaches a node from its parent.
    fn detach(&mut self, id: usize)
        requires
            tree_wf(old(self)@),
            live(old(self)@, id as int),
            id != 0,
        ensures
            final(self)@ == detach_spec(old(self)@, id as int),
            tree_wf(final(self)@),
    {
        proof {
            lemma_detach_wf(self@, id as int);
        }
        let ghost t0 = self@;
        if let Some(p) = self.parent_node(id) {
            if p < self.nodes.len() && self.get(p).is_some() {
                let pn = self.take_slot(p);
                match pn {
                    Some(mut pn) => {
                        pn.children = remove_id(&pn.children, id);
                        self.set_slot(p, Some(pn));
                    },
                    None => {},
                }
            }
        }
        let n = self.take_slot(id);
        match n {
            Some(mut n) => {
                n.parent = None;
                self.set_slot(id, Some(n));
            },
            None => {},
        }
        proof {
            assert(self@ =~= detach_spec(t0, id as int));
        }
    }

    /// Places a detached node among a parent's children at an index.
    fn attach(&mut self, n: usize, parent: usize, index: usize)
        requires
            tree_wf(old(self)@),
            live(old(self)@, n as int),
            n != 0,
            n != parent,
            live(old(self)@, parent as int),
            node(old(self)@, n as int).parent is None,
            index <= node(old(self)@, parent as int).children.len(),
        ensures
            final(self)@ == attach_spec(old(self)@, n as int, parent as int, index as int),
            tree_wf(final(self)@),
    {
        proof {
            lemma_attach_wf(self@, n as int, parent as int, index as int);
        }
        let ghost t0 = self@;
        let pn = self.take_slot(parent);
        match pn {
            Some(mut pn) => {
                pn.children.insert(index, n);
                self.set_slot(parent, Some(pn));
            },
            None => {},
        }
        let nn = self.take_slot(n);
        match nn {
            Some(mut nn) => {
                nn.parent = Some(parent);
                self.set_slot(n, Some(nn));
            },
            None => {},
        }
        proof {
            assert(self@ =~= attach_spec(t0, n as int, parent as int, index as int));
        }
    }

    /// Adds a node to the arena, returning its index.
    fn push_node(&mut self, data: NodeData) -> (id: usize)
        requires
            tree_wf(old(self)@),
            !(data@ is Document),
            old(self)@.len() < usize::MAX,
        ensures
            id == old(self)@.len(),
            final(self)@ == old(self)@.push(Some(NodeModel { data: data@, parent: None, children: Seq::empty() })),
            tree_wf(final(self)@),
    {
        let id = self.nodes.len();
        let ghost old_nodes = self.nodes@;
        let n = DomNode { data, parent: None, children: Vec::new() };
        self.nodes.push(Some(n));
        proof {
            assert(self@ =~= old(self)@.push(slot_view(Some(n))));
            assert(n@.children =~= Seq::<usize>::empty());
            let t = self@;
            let t0 = old(self)@;
            assert forall|i: int| #![trigger t[i]] live(t, i) && node(t, i).parent is Some && live(t, node(t, i).parent->0 as int) implies node(t, node(t, i).parent->0 as int).children.contains(i as usize) by {
                assert(i < t0.len());
                assert(t[i] == t0[i]);
                let q = node(t0, i).parent->0 as int;
                assert(q < t0.len());
                assert(t[q] == t0[q]);
            }
            assert forall|q: int, k: int| #![trigger node(t, q).children[k]] live(t, q) && 0 <= k < node(t, q).children.len() && live(t, node(t, q).children[k] as int) implies node(t, node(t, q).children[k] as int).parent == Some(q as usize) by {
                assert(q < t0.len());
                assert(t[q] == t0[q]);
                let c = node(t0, q).children[k] as int;
                assert(c < t0.len());
                assert(t[c] == t0[c]);
            }
            assert forall|q: int, k: int| #![trigger node(t, q).children[k]] live(t, q) && 0 <= k < node(t, q).children.len() implies node(t, q).children[k] < t.len() by {
                if q < t0.len() {
                    assert(t[q] == t0[q]);
                }
            }
            assert forall|i: int| #![trigger t[i]] live(t, i) && node(t, i).parent is Some implies node(t, i).parent->0 < t.len() by {
                if i < t0.len() {
                    assert(t[i] == t0[i]);
                }
            }
            assert forall|q: int| #![trigger t[q]] live(t, q) implies node(t, q).children.no_duplicates() by {
                if q < t0.len() {
                    assert(t[q] == t0[q]);
                }
            }
        }
        id
    }

    /// Creates an HTML element with the given local name.
    pub fn create_element(&mut self, local_name: &str) -> (id: usize)
        requires
            tree_wf(old(self)@),
            old(self)@.len() < usize::MAX,
        ensures
            tree_wf(final(self)@),
            id == old(self)@.len(),
            final(self)@ == old(self)@.push(
                Some(
                    NodeModel {
                        data: DataModel::Element { prefix: None, ns: html_ns(), local: local_name@, attrs: Seq::empty() },
                        parent: None,
                        children: Seq::empty(),
                    },
                ),
            ),
    {
        let attrs: Vec<Attribute> = Vec::new();
        assert(attrs@.map_values(|a: Attribute| a@) =~= Seq::<AttrModel>::empty());
        let data = NodeData::Element {
            prefix: None,
            ns: String::from_str("http://www.w3.org/1999/xhtml"),
            local: local_name.to_owned(),
            attrs,
        };
        assert(data@ == DataModel::Element { prefix: None, ns: html_ns(), local: local_name@, attrs: Seq::empty() });
        self.push_node(data)
    }

    /// Creates an element in a namespace: only the HTML namespace (given as
    /// null, the empty string or its URL) is supported.
    pub fn create_element_ns(&mut self, namespace: Option<&str>, qualified_name: &str) -> (r: Result<usize, String>)
        requires
            tree_wf(old(self)@),
            old(self)@.len() < usize::MAX,
        ensures
            tree_wf(final(self)@),
            match r {
                Ok(id) => {
                    &&& (namespace is None || namespace->0@.len() == 0 || namespace->0@ == html_ns())
                    &&& id == old(self)@.len()
                    &&& final(self)@ == old(self)@.push(
                        Some(
                            NodeModel {
                                data: DataModel::Element { prefix: None, ns: html_ns(), local: qualified_name@, attrs: Seq::empty() },
                                parent: None,
                                children: Seq::empty(),
                            },
                        ),
                    )
                },
                Err(e) => {
                    &&& namespace is Some
                    &&& !(namespace->0@.len() == 0 || namespace->0@ == html_ns())
                    &&& e@ == "unsupported namespace `"@ + namespace->0@ + "` in createElementNS"@
                    &&& final(self)@ == old(self)@
                },
            },
    {
        if let Some(ns) = namespace {
            if !(ns.is_empty() || str_eq(ns, "http://www.w3.org/1999/xhtml")) {
                let head = concat_str("unsupported namespace `", ns);
                return Err(concat_str(head.as_str(), "` in createElementNS"));
            }
        }
        Ok(self.create_element(qualified_name))
    }

    /// Creates a text node.
    pub fn create_text_node(&mut self, data: &str) -> (id: usize)
        requires
            tree_wf(old(self)@),
            old(self)@.len() < usize::MAX,
        ensures
            tree_wf(final(self)@),
            id == old(self)@.len(),
            final(self)@ == old(self)@.push(Some(NodeModel { data: DataModel::Text(data@), parent: None, children: Seq::empty() })),
    {
        self.push_node(NodeData::Text { content: data.to_owned() })
    }

    /// Creates a comment node.
    pub fn create_comment(&mut self) -> (id: usize)
        requires
            tree_wf(old(self)@),
            old(self)@.len() < usize::MAX,
        ensures
            tree_wf(final(self)@),
            id == old(self)@.len(),
            final(self)@ == old(self)@.push(Some(NodeModel { data: DataModel::Comment, parent: None, children: Seq::empty() })),
    {
        self.push_node(NodeData::Comment)
    }


    /// Ensure pre-insertion validity of `n` into `parent` before `child`.
    pub fn ensure_pre_insertion_validity(&self, n: usize, parent: usize, child: Option<usize>) -> (r: Result<(), DOMException>)
        ensures
            match r {
                Ok(()) => pre_insertion_error(self@, n as int, parent as int, child) is None,
                Err(e) => pre_insertion_error(self@, n as int, parent as int, child) == Some(e.name()),
            },
    {
        // Step 1: parent must be a document or an element.
        let parent_is_document = match self.get(parent) {
            Some(pn) => match &pn.data {
                NodeData::Document => true,
                NodeData::Element { .. } => false,
                _ => return Err(DOMException::hierarchy_request_error()),
            },
            None => return Err(DOMException::hierarchy_request_error()),
        };
        // Step 2: node must not be an inclusive ancestor of parent.
        if self.is_inclusive_ancestor(n, parent) {
            return Err(DOMException::hierarchy_request_error());
        }
        // Step 3: child, if given, must be a child of parent.
        if let Some(c) = child {
            let cp = self.parent_node(c);
            let same = match cp {
                Some(x) => x == parent,
                None => false,
            };
            if !same {
                return Err(DOMException::not_found_error());
            }
        }
        // Step 4: node must be an element, text or comment node.
        let (node_is_text, node_is_element) = match self.get(n) {
            Some(nn) => match &nn.data {
                NodeData::Element { .. } => (false, true),
                NodeData::Text { .. } => (true, false),
                NodeData::Comment => (false, false),
                NodeData::Document => return Err(DOMException::hierarchy_request_error()),
            },
            None => return Err(DOMException::hierarchy_request_error()),
        };
        // Step 5: a text node cannot go under the document.
        if node_is_text && parent_is_document {
            return Err(DOMException::hierarchy_request_error());
        }
        // Step 6: the document has at most one element child.
        if !parent_is_document {
            return Ok(());
        }
        if node_is_element && self.document_has_element_child(parent) {
            return Err(DOMException::hierarchy_request_error());
        }
        Ok(())
    }

    /// The insert algorithm for one node already validated.
    fn insert(&mut self, n: usize, parent: usize, reference: Option<usize>)
        requires
            tree_wf(old(self)@),
            live(old(self)@, n as int),
            n != 0,
            live(old(self)@, parent as int),
            n != parent,
            match reference {
                Some(r) => r != n && children_of(old(self)@, parent as int).contains(r),
                None => true,
            },
        ensures
            final(self)@ == insert_spec(old(self)@, n as int, parent as int, reference),
            tree_wf(final(self)@),
    {
        let ghost t0 = self@;
        self.detach(n);
        let ghost t1 = self@;
        proof {
            lemma_detach_wf(t0, n as int);
            if let Some(r) = reference {
                let cs0 = children_of(t0, parent as int);
                let cs1 = children_of(t1, parent as int);
                lemma_without_sub(cs0, is_id(n));
                if parent_of(t0, n as int) == Some(parent) {
                    assert(cs1 == without(cs0, is_id(n)));
                } else {
                    assert(cs1 == cs0);
                }
                assert(cs1.contains(r));
            }
        }
        let index = match reference {
            Some(r) => {
                let pn = self.get(parent);
                match pn {
                    Some(pn) => {
                        let mut i: usize = 0;
                        while i < pn.children.len()
                            invariant
                                i <= pn.children@.len(),
                                forall|j: int| 0 <= j < i ==> !(#[trigger] is_id(r)(pn.children@[j])),
                            ensures
                                i <= pn.children@.len(),
                                forall|j: int| 0 <= j < i ==> !(#[trigger] is_id(r)(pn.children@[j])),
                                i < pn.children@.len() ==> pn.children@[i as int] == r,
                            decreases pn.children@.len() - i,
                        {
                            if pn.children[i] == r {
                                break;
                            }
                            i = i + 1;
                        }
                        proof {
                            if i < pn.children@.len() {
                                lemma_first_match_is(pn.children@, is_id(r), i as int);
                            } else {
                                let m = choose|m: int| 0 <= m < pn.children@.len() && pn.children@[m] == r;
                                assert(is_id(r)(pn.children@[m]));
                            }
                        }
                        i
                    },
                    None => 0,
                }
            },
            None => match self.get(parent) {
                Some(pn) => pn.children.len(),
                None => 0,
            },
        };
        self.attach(n, parent, index);
    }

    /// Pre-insert `n` into `parent` before `child`: the node is returned once
    /// inserted, or the error of pre-insertion validity is thrown and the
    /// tree is left as it was.
    pub fn pre_insert(&mut self, n: usize, parent: usize, child: Option<usize>) -> (r: Result<usize, DOMException>)
        requires
            tree_wf(old(self)@),
        ensures
            tree_wf(final(self)@),
            match r {
                Ok(id) => {
                    &&& pre_insertion_error(old(self)@, n as int, parent as int, child) is None
                    &&& id == n
                    &&& final(self)@ == pre_insert_spec(old(self)@, n as int, parent as int, child)
                },
                Err(e) => {
                    &&& pre_insertion_error(old(self)@, n as int, parent as int, child) == Some(e.name())
                    &&& final(self)@ == old(self)@
                },
            },
    {
        if let Err(e) = self.ensure_pre_insertion_validity(n, parent, child) {
            return Err(e);
        }
        let ghost t0 = self@;
        proof {
            assert(ancestor_at(t0, parent as int, 0) == Some(parent));
            assert(n != parent);
            assert(n != 0) by {
                assert(node(t0, 0).data is Document);
            }
        }
        let mut reference = child;
        let is_self = match child {
            Some(c) => c == n,
            None => false,
        };
        if is_self {
            reference = self.next_sibling(n);
            proof {
                if let Some(r) = reference {
                    let p = parent_of(t0, n as int)->0;
                    assert(p == parent);
                    let i = index_in_parent(t0, n as int);
                    crate::lookup::lemma_first_match_range(children_of(t0, p as int), is_id(n));
                    assert(children_of(t0, p as int)[i + 1] == r);
                    assert(children_of(t0, p as int)[i] == n);
                    assert(node(t0, p as int).children.no_duplicates());
                    assert(r != n);
                }
            }
        } else {
            proof {
                if let Some(c) = child {
                    assert(live(t0, c as int));
                    assert(node(t0, c as int).parent == Some(parent));
                    assert(node(t0, parent as int).children.contains(c));
                }
            }
        }
        self.insert(n, parent, reference);
        Ok(n)
    }

    /// appendChild(): pre-insert the node into the parent before null.
    pub fn append_child(&mut self, parent: usize, n: usize) -> (r: Result<usize, DOMException>)
        requires
            tree_wf(old(self)@),
        ensures
            tree_wf(final(self)@),
            match r {
                Ok(id) => {
                    &&& pre_insertion_error(old(self)@, n as int, parent as int, None) is None
                    &&& id == n
                    &&& final(self)@ == pre_insert_spec(old(self)@, n as int, parent as int, None)
                },
                Err(e) => {
                    &&& pre_insertion_error(old(self)@, n as int, parent as int, None) == Some(e.name())
                    &&& final(self)@ == old(self)@
                },
            },
    {
        self.pre_insert(n, parent, None)
    }

    /// insertBefore(): pre-insert the node into the parent before the
    /// reference child.
    pub fn insert_before(&mut self, parent: usize, n: usize, reference_child: Option<usize>) -> (r: Result<usize, DOMException>)
        requires
            tree_wf(old(self)@),
        ensures
            tree_wf(final(self)@),
            match r {
                Ok(id) => {
                    &&& pre_insertion_error(old(self)@, n as int, parent as int, reference_child) is None
                    &&& id == n
                    &&& final(self)@ == pre_insert_spec(old(self)@, n as int, parent as int, reference_child)
                },
                Err(e) => {
                    &&& pre_insertion_error(old(self)@, n as int, parent as int, reference_child) == Some(e.name())
                    &&& final(self)@ == old(self)@
                },
            },
    {
        self.pre_insert(n, parent, reference_child)
    }

    /// remove(): a node with a parent leaves it.
    pub fn remove(&mut self, id: usize)
        requires
            tree_wf(old(self)@),
        ensures
            tree_wf(final(self)@),
            final(self)@ == (if parent_of(old(self)@, id as int) is Some {
                detach_spec(old(self)@, id as int)
            } else {
                old(self)@
            }),
    {
        if self.parent_node(id).is_none() {
            return;
        }
        proof {
            assert(id != 0);
        }
        self.detach(id);
    }

    /// removeChild(): the child leaves the receiver, which must be its
    /// parent.
    pub fn remove_child(&mut self, parent: usize, child: usize) -> (r: Result<(), String>)
        requires
            tree_wf(old(self)@),
        ensures
            tree_wf(final(self)@),
            r is Ok <==> parent_of(old(self)@, child as int) == Some(parent),
            r is Ok ==> final(self)@ == detach_spec(old(self)@, child as int),
            r matches Err(e) ==> e@ == "removeChild requires a child of the receiver"@ && final(self)@
                == old(self)@,
    {
        let is_child = match self.parent_node(child) {
            Some(p) => p == parent,
            None => false,
        };
        if !is_child {
            return Err(String::from_str("removeChild requires a child of the receiver"));
        }
        proof {
            assert(child != 0);
        }
        self.detach(child);
        Ok(())
    }


    /// The nodes of a subtree, in tree order, appended to `out`.
    fn collect_subtree(&self, id: usize, fuel: usize, out: &mut Vec<usize>)
        ensures
            final(out)@ == old(out)@ + subtree_ids(self@, id, fuel as nat),
        decreases fuel,
    {
        if fuel == 0 {
            assert(old(out)@ + subtree_ids(self@, id, fuel as nat) =~= old(out)@);
            return;
        }
        let n = match self.get(id) {
            Some(n) => n,
            None => {
                assert(old(out)@ + subtree_ids(self@, id, fuel as nat) =~= old(out)@);
                return;
            },
        };
        out.push(id);
        let ghost base = out@;
        let mut i: usize = 0;
        while i < n.children.len()
            invariant
                fuel > 0,
                i <= n.children@.len(),
                out@ == base + forest_ids(self@, n.children@.take(i as int), (fuel - 1) as nat),
            decreases n.children@.len() - i,
        {
            let ghost before = out@;
            self.collect_subtree(n.children[i], fuel - 1, out);
            proof {
                let cs = n.children@.take(i as int + 1);
                assert(cs.drop_last() =~= n.children@.take(i as int));
                assert(cs.last() == n.children@[i as int]);
            }
            i = i + 1;
            assert(out@ =~= base + forest_ids(self@, n.children@.take(i as int), (fuel - 1) as nat));
        }
        proof {
            assert(n.children@.take(i as int) =~= n.children@);
            assert(out@ =~= old(out)@ + subtree_ids(self@, id, fuel as nat));
        }
    }

    /// The nodes of the subtree rooted at a node, the node first, in tree
    /// order; none for a node the tree does not hold.
    pub fn subtree_node_ids(&self, id: usize) -> (ids: Vec<usize>)
        ensures
            ids@ == subtree_ids(self@, id, self@.len()),
    {
        let mut out: Vec<usize> = Vec::new();
        self.collect_subtree(id, self.nodes.len(), &mut out);
        assert(out@ =~= Seq::<usize>::empty() + subtree_ids(self@, id, self@.len()));
        out
    }

    /// The nodes of the subtrees of a node's children, in tree order.
    pub fn child_subtree_node_ids(&self, id: usize) -> (ids: Vec<usize>)
        ensures
            ids@ == forest_ids(self@, children_of(self@, id as int), self@.len()),
    {
        let mut out: Vec<usize> = Vec::new();
        let n = match self.get(id) {
            Some(n) => n,
            None => {
                assert(forest_ids(self@, Seq::<usize>::empty(), self@.len()) =~= Seq::<usize>::empty());
                return out;
            },
        };
        let fuel = self.nodes.len();
        let mut i: usize = 0;
        while i < n.children.len()
            invariant
                i <= n.children@.len(),
                fuel == self@.len(),
                out@ == forest_ids(self@, n.children@.take(i as int), fuel as nat),
            decreases n.children@.len() - i,
        {
            self.collect_subtree(n.children[i], fuel, &mut out);
            proof {
                let cs = n.children@.take(i as int + 1);
                assert(cs.drop_last() =~= n.children@.take(i as int));
            }
            i = i + 1;
        }
        assert(n.children@.take(i as int) =~= n.children@);
        out
    }

    /// The descendant text of a node, appended to `out`.
    fn collect_text(&self, id: usize, fuel: usize, out: &mut Vec<char>)
        ensures
            final(out)@ == old(out)@ + text_of(self@, id, fuel as nat),
        decreases fuel,
    {
        if fuel == 0 {
            assert(old(out)@ + text_of(self@, id, fuel as nat) =~= old(out)@);
            return;
        }
        let n = match self.get(id) {
            Some(n) => n,
            None => {
                assert(old(out)@ + text_of(self@, id, fuel as nat) =~= old(out)@);
                return;
            },
        };
        if let NodeData::Text { content } = &n.data {
            let cs = chars_of(content.as_str());
            let mut k: usize = 0;
            let ghost base = out@;
            while k < cs.len()
                invariant
                    k <= cs@.len(),
                    out@ == base + cs@.take(k as int),
                decreases cs@.len() - k,
            {
                out.push(cs[k]);
                k = k + 1;
                assert(out@ =~= base + cs@.take(k as int));
            }
            assert(cs@.take(k as int) =~= cs@);
            return;
        }
        let ghost base = out@;
        let mut i: usize = 0;
        while i < n.children.len()
            invariant
                fuel > 0,
                i <= n.children@.len(),
                out@ == base + forest_text(self@, n.children@.take(i as int), (fuel - 1) as nat),
            decreases n.children@.len() - i,
        {
            self.collect_text(n.children[i], fuel - 1, out);
            proof {
                let cs = n.children@.take(i as int + 1);
                assert(cs.drop_last() =~= n.children@.take(i as int));
            }
            i = i + 1;
            assert(out@ =~= base + forest_text(self@, n.children@.take(i as int), (fuel - 1) as nat));
        }
        proof {
            assert(n.children@.take(i as int) =~= n.children@);
            assert(out@ =~= old(out)@ + text_of(self@, id, fuel as nat));
        }
    }

    /// The textContent getter.
    pub fn get_text_content(&self, id: usize) -> (r: Option<String>)
        ensures
            opt_seq(r) == get_text_content_spec(self@, id as int),
    {
        let n = match self.get(id) {
            Some(n) => n,
            None => return None,
        };
        match &n.data {
            NodeData::Element { .. } => {
                let mut out: Vec<char> = Vec::new();
                self.collect_text(id, self.nodes.len(), &mut out);
                assert(out@ =~= Seq::<char>::empty() + text_of(self@, id, self@.len()));
                Some(crate::text::string_from_chars(out.as_slice()))
            },
            NodeData::Text { content } => Some(content.clone()),
            _ => None,
        }
    }

    /// The textContent getter (the node's text content).
    pub fn text_content(&self, id: usize) -> (r: Option<String>)
        ensures
            opt_seq(r) == get_text_content_spec(self@, id as int),
    {
        self.get_text_content(id)
    }

    /// Removes and drops all the children of a node and their subtrees.
    fn remove_and_drop_all_children(&mut self, parent: usize)
        requires
            tree_wf(old(self)@),
            live(old(self)@, parent as int),
        ensures
            tree_wf(final(self)@),
            final(self)@ == drop_children_spec(old(self)@, parent as int),
    {
        let ghost t0 = self@;
        let ids = self.child_subtree_node_ids(parent);
        let pn = self.take_slot(parent);
        match pn {
            Some(mut pn) => {
                pn.children = Vec::new();
                self.set_slot(parent, Some(pn));
            },
            None => {},
        }
        let ghost t1 = self@;
        assert(t1 =~= t0.update(parent as int, Some(NodeModel { children: Seq::empty(), ..node(t0, parent as int) })));
        let mut i: usize = 0;
        while i < ids.len()
            invariant
                i <= ids@.len(),
                self@.len() == t1.len(),
                t1.len() <= usize::MAX,
                forall|j: int| #![trigger self@[j]] 0 <= j < t1.len() ==> self@[j] == (if j != 0 && j != parent && ids@.take(i as int).contains(j as usize) {
                    None
                } else {
                    t1[j]
                }),
            decreases ids@.len() - i,
        {
            let x = ids[i];
            let ghost before = self@;
            let dropped = x != 0 && x != parent && x < self.nodes.len();
            if dropped {
                self.set_slot(x, None);
            }
            proof {
                let a = ids@.take(i as int);
                let b = ids@.take(i as int + 1);
                assert(b =~= a.push(x));
                assert forall|j: int| #![trigger self@[j]] 0 <= j < t1.len() implies self@[j] == (if j != 0 && j != parent && b.contains(j as usize) {
                    None
                } else {
                    t1[j]
                }) by {
                    let ju = j as usize;
                    assert(ju as int == j);
                    if j == x as int {
                        assert(b[a.len() as int] == ju);
                        assert(b.contains(ju));
                        if dropped {
                            assert(self@[j] is None);
                        } else {
                            assert(self@[j] == before[j]);
                        }
                    } else {
                        assert(self@[j] == before[j]);
                        if b.contains(ju) {
                            let m = choose|m: int| 0 <= m < b.len() && b[m] == ju;
                            assert(m < a.len());
                            assert(a[m] == ju);
                            assert(a.contains(ju));
                        }
                        if a.contains(ju) {
                            let m = choose|m: int| 0 <= m < a.len() && a[m] == ju;
                            assert(b[m] == ju);
                        }
                    }
                }
            }
            i = i + 1;
        }
        proof {
            assert(ids@.take(i as int) =~= ids@);
            assert(self@ =~= drop_children_spec(t0, parent as int));
            lemma_drop_children_wf(t0, parent as int);
        }
    }

    /// Sets the data of a text node.
    fn set_node_text(&mut self, id: usize, value: &str)
        requires
            tree_wf(old(self)@),
            live(old(self)@, id as int),
            node(old(self)@, id as int).data is Text,
        ensures
            tree_wf(final(self)@),
            final(self)@ == set_text_spec(old(self)@, id as int, value@),
    {
        let ghost t0 = self@;
        let n = self.take_slot(id);
        match n {
            Some(mut n) => {
                n.data = NodeData::Text { content: value.to_owned() };
                self.set_slot(id, Some(n));
            },
            None => {},
        }
        proof {
            assert(self@ =~= set_text_spec(t0, id as int, value@));
            lemma_data_update_wf(t0, id as int, DataModel::Text(value@));
        }
    }

    /// String replace all with a string within a node.
    pub fn string_replace_all(&mut self, parent: usize, value: &str)
        requires
            tree_wf(old(self)@),
            old(self)@.len() < usize::MAX,
        ensures
            tree_wf(final(self)@),
            final(self)@ == replace_all_spec(old(self)@, parent as int, value@),
    {
        if self.get(parent).is_none() {
            return;
        }
        let ghost t0 = self@;
        if value.is_empty() {
            self.remove_and_drop_all_children(parent);
            return;
        }
        let text = self.create_text_node(value);
        proof {
            assert(live(self@, parent as int));
        }
        self.remove_and_drop_all_children(parent);
        proof {
            let t1 = t0.push(Some(NodeModel { data: DataModel::Text(value@), parent: None, children: Seq::empty() }));
            assert(text == t0.len());
            let ids = forest_ids(t1, node(t1, parent as int).children, t1.len());
            assert(!ids.contains(text)) by {
                lemma_forest_within(t1, node(t1, parent as int).children, t1.len());
                assert(t1[parent as int] == t0[parent as int]);
                if node(t1, parent as int).children.contains(text) {
                    let k = choose|k: int| 0 <= k < node(t1, parent as int).children.len() && node(t1, parent as int).children[k] == text;
                    assert(node(t0, parent as int).children[k] < t0.len());
                }
                if listed_somewhere(t1, text) {
                    let y = choose|y: int| live(t1, y) && (#[trigger] node(t1, y).children).contains(text);
                    if y < t0.len() {
                        assert(t1[y] == t0[y]);
                        let k = choose|k: int| 0 <= k < node(t0, y).children.len() && node(t0, y).children[k] == text;
                        assert(node(t0, y).children[k] < t0.len());
                    } else {
                        assert(node(t1, y).children.len() == 0);
                    }
                }
            }
            assert(self@[text as int] == t1[text as int]);
            assert(parent != text);
            assert(self@[parent as int] is Some);
        }
        self.attach(text, parent, 0);
    }

    /// The set text content algorithm.
    pub fn run_set_text_content(&mut self, id: usize, value: &str)
        requires
            tree_wf(old(self)@),
            old(self)@.len() < usize::MAX,
        ensures
            tree_wf(final(self)@),
            final(self)@ == set_text_content_spec(old(self)@, id as int, value@),
    {
        let kind = match self.get(id) {
            None => return,
            Some(n) => match &n.data {
                NodeData::Element { .. } => 1u8,
                NodeData::Text { .. } => 2u8,
                _ => 0u8,
            },
        };
        if kind == 1 {
            self.string_replace_all(id, value);
        } else if kind == 2 {
            self.set_node_text(id, value);
        }
    }

    /// The textContent setter: null acts as the empty string.
    pub fn set_text_content(&mut self, id: usize, value: Option<&str>)
        requires
            tree_wf(old(self)@),
            old(self)@.len() < usize::MAX,
        ensures
            tree_wf(final(self)@),
            final(self)@ == set_text_content_spec(
                old(self)@,
                id as int,
                match value {
                    Some(v) => v@,
                    None => Seq::empty(),
                },
            ),
    {
        let v = match value {
            Some(v) => v,
            None => "",
        };
        proof {
            if value is None {
                reveal_strlit("");
                assert(v@ =~= Seq::<char>::empty());
            }
        }
        self.run_set_text_content(id, v);
    }

    /// The nodeValue setter: a text node takes the value (null acting as
    /// the empty string); other nodes are left alone.
    pub fn set_node_value(&mut self, id: usize, value: Option<&str>)
        requires
            tree_wf(old(self)@),
            old(self)@.len() < usize::MAX,
        ensures
            tree_wf(final(self)@),
            final(self)@ == (if live(old(self)@, id as int) && node(old(self)@, id as int).data is Text {
                set_text_spec(
                    old(self)@,
                    id as int,
                    match value {
                        Some(v) => v@,
                        None => Seq::empty(),
                    },
                )
            } else {
                old(self)@
            }),
    {
        let is_text = match self.get(id) {
            Some(n) => match &n.data {
                NodeData::Text { .. } => true,
                _ => false,
            },
            None => false,
        };
        if is_text {
            self.set_text_content(id, value);
        }
    }


    /// Whether a node is an element in the HTML namespace.
    fn uses_ascii_lowercase_attribute_names(&self, id: usize) -> (b: bool)
        ensures
            b == is_html_element(self@, id as int),
    {
        match self.get(id) {
            Some(n) => match &n.data {
                NodeData::Element { ns, .. } => str_eq(ns.as_str(), "http://www.w3.org/1999/xhtml"),
                _ => false,
            },
            None => false,
        }
    }

    /// An attribute name as looked up on the element.
    fn normalized_attribute_qualified_name(&self, id: usize, q: &str) -> (r: String)
        ensures
            r@ == normalized_name(self@, id as int, q@),
    {
        if self.uses_ascii_lowercase_attribute_names(id) {
            str_to_ascii_lowercase(q)
        } else {
            q.to_owned()
        }
    }

    /// getAttribute().
    pub fn get_attribute(&self, id: usize, qualified_name: &str) -> (r: Option<String>)
        ensures
            opt_seq(r) == get_attribute_spec(self@, id as int, qualified_name@),
    {
        let name = self.normalized_attribute_qualified_name(id, qualified_name);
        match self.get(id) {
            Some(n) => match &n.data {
                NodeData::Element { attrs, .. } => match find_attr_named(attrs, name.as_str()) {
                    Some(i) => {
                        assert(attrs_view(attrs@)[i as int] == attrs@[i as int]@);
                        Some(attrs[i].value.clone())
                    },
                    None => None,
                },
                _ => {
                    proof {
                        lemma_first_match_none(Seq::<AttrModel>::empty(), attr_named(name@));
                    }
                    None
                },
            },
            None => {
                proof {
                    lemma_first_match_none(Seq::<AttrModel>::empty(), attr_named(name@));
                }
                None
            },
        }
    }

    /// hasAttribute().
    pub fn has_attribute(&self, id: usize, qualified_name: &str) -> (b: bool)
        ensures
            b == (get_attribute_spec(self@, id as int, qualified_name@) is Some),
    {
        self.get_attribute(id, qualified_name).is_some()
    }

    /// The value of the first attribute with the given local name, as the
    /// id getter reads it.
    pub fn attr_by_local_name(&self, id: usize, local: &str) -> (r: Option<String>)
        ensures
            opt_seq(r) == attr_by_local_spec(self@, id as int, local@),
    {
        match self.get(id) {
            Some(n) => match &n.data {
                NodeData::Element { attrs, .. } => {
                    let ghost v = attrs_view(attrs@);
                    let mut i: usize = 0;
                    while i < attrs.len()
                        invariant
                            i <= attrs@.len(),
                            v == attrs_view(attrs@),
                            v == element_attrs(self@, id as int),
                            forall|j: int| 0 <= j < i ==> !(#[trigger] attr_local_is(local@)(v[j])),
                        decreases attrs@.len() - i,
                    {
                        assert(v[i as int] == attrs@[i as int]@);
                        if str_eq(attrs[i].local.as_str(), local) {
                            proof {
                                lemma_first_match_is(v, attr_local_is(local@), i as int);
                            }
                            return Some(attrs[i].value.clone());
                        }
                        i = i + 1;
                    }
                    proof {
                        lemma_first_match_none(v, attr_local_is(local@));
                    }
                    None
                },
                _ => {
                    proof {
                        lemma_first_match_none(Seq::<AttrModel>::empty(), attr_local_is(local@));
                    }
                    None
                },
            },
            None => {
                proof {
                    lemma_first_match_none(Seq::<AttrModel>::empty(), attr_local_is(local@));
                }
                None
            },
        }
    }

    /// The id getter: the value of the id attribute, or the empty string.
    pub fn element_id(&self, id: usize) -> (r: String)
        ensures
            ({
                let attrs = element_attrs(self@, id as int);
                let i = first_match(attrs, attr_local_is("id"@));
                r@ == if i >= 0 { attrs[i].value } else { Seq::empty() }
            }),
    {
        match self.attr_by_local_name(id, "id") {
            Some(v) => v,
            None => String::new(),
        }
    }

    /// The tagName getter: the element's local name uppercased, or the
    /// empty string for another node.
    pub fn tag_name(&self, id: usize) -> (r: String)
        ensures
            r@ == (if live(self@, id as int) && node(self@, id as int).data is Element {
                ascii_upper_seq(node(self@, id as int).data->Element_local)
            } else {
                Seq::empty()
            }),
    {
        match self.get(id) {
            Some(n) => match &n.data {
                NodeData::Element { local, .. } => str_to_ascii_uppercase(local.as_str()),
                _ => String::new(),
            },
            None => String::new(),
        }
    }

    /// Whether a node is connected: the document is its inclusive ancestor.
    pub fn is_connected(&self, id: usize) -> (b: bool)
        ensures
            b == is_inclusive_ancestor_spec(self@, 0, id as int),
    {
        self.is_inclusive_ancestor(0, id)
    }

    /// Replaces the attributes of an element.
    fn replace_attrs(&mut self, id: usize, new_attrs: Vec<Attribute>)
        requires
            tree_wf(old(self)@),
            live(old(self)@, id as int),
            node(old(self)@, id as int).data is Element,
        ensures
            tree_wf(final(self)@),
            final(self)@ == with_attrs(old(self)@, id as int, attrs_view(new_attrs@)),
    {
        let ghost t0 = self@;
        proof {
            assert(id != 0);
        }
        let slot = self.take_slot(id);
        match slot {
            Some(n) => {
                let DomNode { data, parent, children } = n;
                match data {
                    NodeData::Element { prefix, ns, local, attrs } => {
                        let n2 = DomNode { data: NodeData::Element { prefix, ns, local, attrs: new_attrs }, parent, children };
                        self.set_slot(id, Some(n2));
                    },
                    other => {
                        let n2 = DomNode { data: other, parent, children };
                        self.set_slot(id, Some(n2));
                    },
                }
            },
            None => {},
        }
        proof {
            assert(self@ =~= with_attrs(t0, id as int, attrs_view(new_attrs@)));
            let d = node(t0, id as int).data;
            lemma_data_update_wf(
                t0,
                id as int,
                DataModel::Element { prefix: d->Element_prefix, ns: d->Element_ns, local: d->Element_local, attrs: attrs_view(new_attrs@) },
            );
        }
    }

    /// A copy of an element's attributes.
    fn attrs_of(&self, id: usize) -> (r: Vec<Attribute>)
        requires
            live(self@, id as int),
            node(self@, id as int).data is Element,
        ensures
            attrs_view(r@) == element_attrs(self@, id as int),
    {
        let mut out: Vec<Attribute> = Vec::new();
        match self.get(id) {
            Some(n) => match &n.data {
                NodeData::Element { attrs, .. } => {
                    let mut i: usize = 0;
                    while i < attrs.len()
                        invariant
                            i <= attrs@.len(),
                            attrs_view(out@) == attrs_view(attrs@).take(i as int),
                        decreases attrs@.len() - i,
                    {
                        let a = &attrs[i];
                        let copy = Attribute {
                            prefix: match &a.prefix {
                                Some(p) => Some(p.clone()),
                                None => None,
                            },
                            ns: a.ns.clone(),
                            local: a.local.clone(),
                            value: a.value.clone(),
                        };
                        assert(copy@ == a@);
                        let ghost o0 = attrs_view(out@);
                        out.push(copy);
                        assert(attrs_view(out@) =~= o0.push(copy@));
                        assert(attrs_view(attrs@)[i as int] == attrs@[i as int]@);
                        i = i + 1;
                        assert(attrs_view(out@) =~= attrs_view(attrs@).take(i as int));
                    }
                    assert(attrs_view(attrs@).take(i as int) =~= attrs_view(attrs@));
                },
                _ => {},
            },
            None => {},
        }
        out
    }

    /// Sets an attribute given by its name parts.
    fn set_attr(&mut self, id: usize, prefix: Option<String>, ns: String, local: String, value: &str)
        requires
            tree_wf(old(self)@),
        ensures
            tree_wf(final(self)@),
            final(self)@ == set_attr_spec(old(self)@, id as int, opt_seq(prefix), ns@, local@, value@),
    {
        let is_element = match self.get(id) {
            Some(n) => match &n.data {
                NodeData::Element { .. } => true,
                _ => false,
            },
            None => false,
        };
        if !is_element {
            return;
        }
        let mut attrs = self.attrs_of(id);
        let ghost a0 = attrs_view(attrs@);
        match find_attr_is(&attrs, &prefix, ns.as_str(), local.as_str()) {
            Some(i) => {
                attrs[i].value = value.to_owned();
                assert(attrs_view(attrs@) =~= a0.update(i as int, AttrModel { value: value@, ..a0[i as int] }));
            },
            None => {
                let a = Attribute { prefix, ns, local, value: value.to_owned() };
                let ghost am = a@;
                attrs.push(a);
                assert(attrs_view(attrs@) =~= a0.push(am));
            },
        }
        self.replace_attrs(id, attrs);
    }

    fn set_attr_by_name(&mut self, id: usize, name: String, value: &str)
        requires
            tree_wf(old(self)@),
        ensures
            tree_wf(final(self)@),
            final(self)@ == set_attr_by_name_spec(old(self)@, id as int, name@, value@),
    {
        let is_element = match self.get(id) {
            Some(n) => match &n.data {
                NodeData::Element { .. } => true,
                _ => false,
            },
            None => false,
        };
        if !is_element {
            return;
        }
        let mut attrs = self.attrs_of(id);
        let ghost a0 = attrs_view(attrs@);
        match find_attr_named(&attrs, name.as_str()) {
            Some(i) => {
                attrs[i].value = value.to_owned();
                assert(attrs_view(attrs@) =~= a0.update(i as int, AttrModel { value: value@, ..a0[i as int] }));
            },
            None => {
                let a = Attribute { prefix: None, ns: String::new(), local: name, value: value.to_owned() };
                let ghost am = a@;
                attrs.push(a);
                assert(attrs_view(attrs@) =~= a0.push(am));
            },
        }
        self.replace_attrs(id, attrs);
    }

    /// setAttribute(): the first attribute whose qualified name is the
    /// normalized name takes the value; without one, an attribute with no
    /// prefix or namespace is appended.
    pub fn set_attribute(&mut self, id: usize, qualified_name: &str, value: &str)
        requires
            tree_wf(old(self)@),
        ensures
            tree_wf(final(self)@),
            final(self)@ == set_attr_by_name_spec(
                old(self)@,
                id as int,
                normalized_name(old(self)@, id as int, qualified_name@),
                value@,
            ),
    {
        let name = self.normalized_attribute_qualified_name(id, qualified_name);
        self.set_attr_by_name(id, name, value);
    }

    /// setAttributeNS(): the qualified name is split into prefix and local
    /// name; a null namespace is the empty one.
    pub fn set_attribute_ns(&mut self, id: usize, namespace: Option<&str>, qualified_name: &str, value: &str)
        requires
            tree_wf(old(self)@),
        ensures
            tree_wf(final(self)@),
            final(self)@ == set_attr_spec(
                old(self)@,
                id as int,
                split_qualified_spec(qualified_name@).0,
                match namespace {
                    Some(n) => n@,
                    None => Seq::empty(),
                },
                split_qualified_spec(qualified_name@).1,
                value@,
            ),
    {
        let (prefix, local) = split_qualified_name(qualified_name);
        let ns = match namespace {
            Some(n) => n.to_owned(),
            None => String::new(),
        };
        self.set_attr(id, prefix, ns, local, value);
    }

    /// removeAttribute().
    pub fn remove_attribute(&mut self, id: usize, qualified_name: &str)
        requires
            tree_wf(old(self)@),
        ensures
            tree_wf(final(self)@),
            final(self)@ == remove_attribute_spec(old(self)@, id as int, qualified_name@),
    {
        let name = self.normalized_attribute_qualified_name(id, qualified_name);
        let is_element = match self.get(id) {
            Some(n) => match &n.data {
                NodeData::Element { .. } => true,
                _ => false,
            },
            None => false,
        };
        if !is_element {
            proof {
                lemma_first_match_none(Seq::<AttrModel>::empty(), attr_named(name@));
            }
            return;
        }
        let attrs = self.attrs_of(id);
        let i = match find_attr_named(&attrs, name.as_str()) {
            Some(i) => i,
            None => return,
        };
        let ghost a0 = attrs_view(attrs@);
        let ghost target = attr_is(a0[i as int].prefix, a0[i as int].ns, a0[i as int].local);
        let mut kept: Vec<Attribute> = Vec::new();
        let mut k: usize = 0;
        let mut rest = attrs;
        let p = match &rest[i].prefix {
            Some(x) => Some(x.clone()),
            None => None,
        };
        let ns = rest[i].ns.clone();
        let local = rest[i].local.clone();
        assert(target == attr_is(opt_seq(p), ns@, local@));
        let ghost orig = attrs_view(rest@);
        while rest.len() > 0
            invariant
                target == attr_is(opt_seq(p), ns@, local@),
                attrs_view(kept@) + without(attrs_view(rest@), target) == without(orig, target),
            decreases rest@.len(),
        {
            let ghost r0 = attrs_view(rest@);
            proof {
                crate::global_scope::lemma_without_step(r0, target);
            }
            let a = rest.remove(0);
            assert(attrs_view(rest@) =~= r0.drop_first());
            let matches = opt_str_eq(&a.prefix, &p) && str_eq(a.ns.as_str(), ns.as_str()) && str_eq(a.local.as_str(), local.as_str());
            if !matches {
                let ghost k0 = attrs_view(kept@);
                kept.push(a);
                assert(attrs_view(kept@) =~= k0.push(a@));
                assert(attrs_view(kept@) + without(attrs_view(rest@), target) =~= k0 + (seq![a@] + without(r0.drop_first(), target)));
            }
        }
        assert(attrs_view(rest@) =~= Seq::<AttrModel>::empty());
        assert(attrs_view(kept@) =~= without(orig, target));
        self.replace_attrs(id, kept);
    }

    /// The dir getter of a document: the canonical value of the document
    /// element's dir attribute, or the empty string.
    pub fn dir(&self) -> (r: String)
        ensures
            r@ == (match document_element_spec(self@) {
                Some(e) => match get_attribute_spec(self@, e as int, "dir"@) {
                    Some(v) => canonical_dir_spec(v),
                    None => Seq::empty(),
                },
                None => Seq::empty(),
            }),
    {
        match self.document_element() {
            Some(e) => match self.get_attribute(e, "dir") {
                Some(v) => {
                    let c = canonical_document_dir(v.as_str());
                    c.to_owned()
                },
                None => String::new(),
            },
            None => String::new(),
        }
    }


    /// insertAdjacentText(): a new text node goes before the element, as
    /// its first or last child, or after it.
    pub fn insert_adjacent_text(&mut self, id: usize, position: &str, data: &str) -> (r: Result<(), DOMException>)
        requires
            tree_wf(old(self)@),
            old(self)@.len() < usize::MAX,
        ensures
            tree_wf(final(self)@),
            final(self)@ == insert_adjacent_text_spec(old(self)@, id as int, position@, data@).0,
            match r {
                Ok(()) => insert_adjacent_text_spec(old(self)@, id as int, position@, data@).1 is None,
                Err(e) => insert_adjacent_text_spec(old(self)@, id as int, position@, data@).1 == Some(e.name()),
            },
    {
        let (parent, is_live) = match self.get(id) {
            Some(n) => (n.parent, true),
            None => (None, false),
        };
        if !is_live {
            return Ok(());
        }
        let ghost t0 = self@;
        let text = self.create_text_node(data);
        let ghost t1 = self@;
        proof {
            assert(t1[id as int] == t0[id as int]);
            assert(text as int == t0.len());
            assert(text != id);
        }
        let before = str_eq_ignore_ascii_case(position, "beforebegin");
        let after = str_eq_ignore_ascii_case(position, "afterend");
        if before || after {
            match parent {
                Some(p) => {
                    if p == 0 {
                        return Err(DOMException::hierarchy_request_error());
                    }
                    let p_live = self.get(p).is_some();
                    if p_live {
                        proof {
                            assert(live(t0, p as int));
                            assert(t1[p as int] == t0[p as int]);
                            assert(node(t0, p as int).children.contains(id));
                        }
                        let pn = self.get(p);
                        let mut i: usize = 0;
                        match pn {
                            Some(pn) => {
                                while i < pn.children.len()
                                    invariant
                                        i <= pn.children@.len(),
                                        forall|j: int| 0 <= j < i ==> !(#[trigger] is_id(id)(pn.children@[j])),
                                    ensures
                                        i <= pn.children@.len(),
                                        forall|j: int| 0 <= j < i ==> !(#[trigger] is_id(id)(pn.children@[j])),
                                        i < pn.children@.len() ==> pn.children@[i as int] == id,
                                    decreases pn.children@.len() - i,
                                {
                                    if pn.children[i] == id {
                                        break;
                                    }
                                    i = i + 1;
                                }
                                proof {
                                    if i < pn.children@.len() {
                                        lemma_first_match_is(pn.children@, is_id(id), i as int);
                                    } else {
                                        let m = choose|m: int| 0 <= m < pn.children@.len() && pn.children@[m] == id;
                                        assert(is_id(id)(pn.children@[m]));
                                    }
                                }
                                let len = pn.children.len();
                                assert(i < len);
                                if !before {
                                    i = i + 1;
                                }
                            },
                            None => {},
                        }
                        let index = i;
                        proof {
                            assert(text != p);
                            assert(text != 0);
                        }
                        self.attach(text, p, index);
                    }
                    return Ok(());
                },
                None => {
                    return Ok(());
                },
            }
        }
        if str_eq_ignore_ascii_case(position, "afterbegin") {
            proof {
                assert(text != 0);
                assert(node(t1, id as int).parent == node(t0, id as int).parent);
            }
            self.attach(text, id, 0);
            return Ok(());
        }
        if str_eq_ignore_ascii_case(position, "beforeend") {
            let len = match self.get(id) {
                Some(n) => n.children.len(),
                None => 0,
            };
            self.attach(text, id, len);
            return Ok(());
        }
        Err(DOMException::syntax_error())
    }

    /// The dir setter of a document: sets the document element's dir
    /// attribute, where there is a document element.
    pub fn set_dir(&mut self, dir: &str)
        requires
            tree_wf(old(self)@),
        ensures
            tree_wf(final(self)@),
            final(self)@ == match document_element_spec(old(self)@) {
                Some(e) => set_attr_by_name_spec(old(self)@, e as int, normalized_name(old(self)@, e as int, "dir"@),
                    dir@,
                ),
                None => old(self)@,
            },
    {
        if let Some(e) = self.document_element() {
            self.set_attribute(e, "dir", dir);
        }
    }

    /// The number of slots of the arena.
    pub fn len(&self) -> (n: usize)
        ensures
            n == self@.len(),
    {
        self.nodes.len()
    }

    proof fn lemma_view_index(&self, i: int)
        requires
            0 <= i < self.nodes@.len(),
        ensures
            self@[i] == slot_view(self.nodes@[i]),
            self@.len() == self.nodes@.len(),
    {
    }

    /// The node at an index, if the arena holds one.
    pub fn get(&self, id: usize) -> (r: Option<&DomNode>)
        ensures
            match r {
                Some(n) => live(self@, id as int) && n@ == node(self@, id as int),
                None => !live(self@, id as int),
            },
    {
        if id >= self.nodes.len() {
            return None;
        }
        proof {
            self.lemma_view_index(id as int);
        }
        match &self.nodes[id] {
            Some(n) => Some(n),
            None => None,
        }
    }

    /// The children of a node, in order.
    pub fn child_node_ids(&self, id: usize) -> (ids: Vec<usize>)
        ensures
            ids@ == children_of(self@, id as int),
    {
        match self.get(id) {
            Some(n) => copy_ids(&n.children),
            None => Vec::new(),
        }
    }

    pub fn first_child(&self, id: usize) -> (r: Option<usize>)
        ensures
            r == (if children_of(self@, id as int).len() > 0 {
                Some(children_of(self@, id as int)[0])
            } else {
                None
            }),
    {
        match self.get(id) {
            Some(n) => if n.children.len() > 0 {
                Some(n.children[0])
            } else {
                None
            },
            None => None,
        }
    }

    pub fn last_child(&self, id: usize) -> (r: Option<usize>)
        ensures
            r == (if children_of(self@, id as int).len() > 0 {
                Some(children_of(self@, id as int).last())
            } else {
                None
            }),
    {
        match self.get(id) {
            Some(n) => if n.children.len() > 0 {
                Some(n.children[n.children.len() - 1])
            } else {
                None
            },
            None => None,
        }
    }

    pub fn parent_node(&self, id: usize) -> (r: Option<usize>)
        ensures
            r == parent_of(self@, id as int),
    {
        match self.get(id) {
            Some(n) => n.parent,
            None => None,
        }
    }

    pub fn has_child_nodes(&self, id: usize) -> (b: bool)
        ensures
            b == (children_of(self@, id as int).len() > 0),
    {
        match self.get(id) {
            Some(n) => n.children.len() > 0,
            None => false,
        }
    }

    /// The index of a node among its parent's children.
    fn position_in_parent(&self, id: usize) -> (r: Option<(usize, usize)>)
        ensures
            match r {
                Some((p, i)) => {
                    &&& parent_of(self@, id as int) == Some(p)
                    &&& live(self@, p as int)
                    &&& i == index_in_parent(self@, id as int)
                    &&& 0 <= i < children_of(self@, p as int).len()
                    &&& children_of(self@, p as int)[i as int] == id
                },
                None => index_in_parent(self@, id as int) < 0,
            },
    {
        let p = match self.parent_node(id) {
            Some(p) => p,
            None => return None,
        };
        let pn = match self.get(p) {
            Some(pn) => pn,
            None => return None,
        };
        let mut i: usize = 0;
        while i < pn.children.len()
            invariant
                i <= pn.children@.len(),
                pn.children@ == children_of(self@, p as int),
                live(self@, p as int),
                parent_of(self@, id as int) == Some(p),
                forall|j: int| 0 <= j < i ==> pn.children@[j] != id,
            decreases pn.children@.len() - i,
        {
            if pn.children[i] == id {
                proof {
                    assert forall|j: int| 0 <= j < i implies !(#[trigger] is_id(id)(pn.children@[j])) by {}
                    lemma_first_match_is(pn.children@, is_id(id), i as int);
                    assert((id as int) as usize == id);
                    assert(children_of(self@, p as int) == pn.children@);
                }
                return Some((p, i));
            }
            i = i + 1;
        }
        proof {
            assert forall|j: int| 0 <= j < pn.children@.len() implies !(#[trigger] is_id(id)(pn.children@[j])) by {}
            lemma_first_match_none(pn.children@, is_id(id));
            assert((id as int) as usize == id);
        }
        None
    }

    /// The previous sibling of a node.
    pub fn previous_sibling(&self, id: usize) -> (r: Option<usize>)
        ensures
            r == previous_sibling_spec(self@, id as int),
    {
        match self.position_in_parent(id) {
            Some((p, i)) => {
                if i == 0 {
                    return None;
                }
                let pn = self.get(p);
                match pn {
                    Some(pn) => Some(pn.children[i - 1]),
                    None => None,
                }
            },
            None => None,
        }
    }

    /// The next sibling of a node.
    pub fn next_sibling(&self, id: usize) -> (r: Option<usize>)
        ensures
            r == next_sibling_spec(self@, id as int),
    {
        match self.position_in_parent(id) {
            Some((p, i)) => {
                let pn = self.get(p);
                match pn {
                    Some(pn) => if pn.children.len() - i > 1 {
                        Some(pn.children[i + 1])
                    } else {
                        None
                    },
                    None => None,
                }
            },
            None => None,
        }
    }

    /// The node type attribute.
    pub fn node_type(&self, id: usize) -> (r: u16)
        ensures
            r == node_type_spec(self@, id as int),
    {
        match self.get(id) {
            None => 0,
            Some(n) => match &n.data {
                NodeData::Document => 9,
                NodeData::Element { .. } => 1,
                NodeData::Text { .. } => 3,
                NodeData::Comment => 8,
            },
        }
    }

    /// The node name attribute.
    pub fn node_name(&self, id: usize) -> (r: String)
        ensures
            r@ == node_name_spec(self@, id as int),
    {
        match self.get(id) {
            None => String::new(),
            Some(n) => match &n.data {
                NodeData::Document => String::from_str("#document"),
                NodeData::Element { ns, local, .. } => {
                    if str_eq(ns.as_str(), "http://www.w3.org/1999/xhtml") {
                        str_to_ascii_uppercase(local.as_str())
                    } else {
                        local.clone()
                    }
                },
                NodeData::Text { .. } => String::from_str("#text"),
                NodeData::Comment => String::from_str("#comment"),
            },
        }
    }

    /// The owner document: the document node, for any node but the document
    /// itself.
    pub fn owner_document_node_id(&self, id: usize) -> (r: Option<usize>)
        ensures
            r == (if id != 0 {
                Some(0usize)
            } else {
                None
            }),
    {
        if id != 0 {
            Some(0)
        } else {
            None
        }
    }

    /// The node value attribute.
    pub fn node_value(&self, id: usize) -> (r: Option<String>)
        ensures
            opt_seq(r) == node_value_spec(self@, id as int),
    {
        match self.get(id) {
            None => None,
            Some(n) => match &n.data {
                NodeData::Text { content } => Some(content.clone()),
                NodeData::Comment => Some(String::new()),
                _ => None,
            },
        }
    }

    /// Whether `a` is an inclusive ancestor of `d`.
    pub fn is_inclusive_ancestor(&self, a: usize, d: usize) -> (b: bool)
        ensures
            b == is_inclusive_ancestor_spec(self@, a as int, d as int),
    {
        let mut current: Option<usize> = Some(d);
        let mut steps: usize = 0;
        let bound = self.nodes.len();
        loop
            invariant
                bound == self@.len(),
                steps <= bound,
                current == ancestor_at(self@, d as int, steps as nat),
                forall|k: nat| k < steps ==> #[trigger] ancestor_at(self@, d as int, k) != Some(a),
            decreases bound - steps,
        {
            match current {
                None => {
                    proof {
                        assert forall|k: nat| k <= self@.len() implies #[trigger] ancestor_at(self@, d as int, k) != Some(a) by {
                            if k >= steps {
                                lemma_ancestor_none_stays(self@, d as int, steps as nat, k);
                            }
                        }
                    }
                    return false;
                },
                Some(c) => {
                    if c == a {
                        return true;
                    }
                    if steps == bound {
                        return false;
                    }
                    current = self.parent_node(c);
                },
            }
            steps = steps + 1;
        }
    }

    /// Whether the document has an element child.
    pub fn document_has_element_child(&self, parent: usize) -> (b: bool)
        ensures
            b == exists|k: int|
                0 <= k < children_of(self@, parent as int).len() && live(
                    self@,
                    #[trigger] children_of(self@, parent as int)[k] as int,
                ) && node(self@, children_of(self@, parent as int)[k] as int).data is Element,
    {
        let pn = match self.get(parent) {
            Some(pn) => pn,
            None => return false,
        };
        let mut i: usize = 0;
        while i < pn.children.len()
            invariant
                i <= pn.children@.len(),
                pn.children@ == children_of(self@, parent as int),
                forall|k: int|
                    0 <= k < i ==> !(live(self@, #[trigger] pn.children@[k] as int) && node(
                        self@,
                        pn.children@[k] as int,
                    ).data is Element),
            decreases pn.children@.len() - i,
        {
            let c = pn.children[i];
            match self.get(c) {
                Some(cn) => match &cn.data {
                    NodeData::Element { .. } => {
                        return true;
                    },
                    _ => {},
                },
                None => {},
            }
            i = i + 1;
        }
        false
    }

    /// The document element: the first child of the document that is an
    /// element.
    pub fn document_element(&self) -> (r: Option<usize>)
        ensures
            r == document_element_spec(self@),
    {
        let root = match self.get(0) {
            Some(r) => r,
            None => {
                proof {
                    lemma_first_match_none(Seq::<usize>::empty(), element_in(self@));
                }
                return None;
            },
        };
        let mut i: usize = 0;
        while i < root.children.len()
            invariant
                i <= root.children@.len(),
                root.children@ == children_of(self@, 0),
                forall|k: int| 0 <= k < i ==> !(#[trigger] element_in(self@)(root.children@[k])),
            decreases root.children@.len() - i,
        {
            let c = root.children[i];
            match self.get(c) {
                Some(cn) => match &cn.data {
                    NodeData::Element { .. } => {
                        proof {
                            lemma_first_match_is(root.children@, element_in(self@), i as int);
                        }
                        return Some(c);
                    },
                    _ => {},
                },
                None => {},
            }
            i = i + 1;
        }
        proof {
            lemma_first_match_none(root.children@, element_in(self@));
        }
        None
    }
}

/// A DOM tree: an arena of nodes named by index, the document node at index
/// zero; it is always well formed.
pub struct DomTree {
    arena: NodeArena,
}

impl View for DomTree {
    type V = Seq<Option<NodeModel>>;

    closed spec fn view(&self) -> Seq<Option<NodeModel>> {
        self.arena@
    }
}

impl DomTree {
    /// Every tree is well formed.
    #[verifier::type_invariant]
    pub open spec fn is_well_formed(&self) -> bool {
        tree_wf(self@)
    }

    /// A tree holding only the document node.
    pub fn new() -> (t: Self)
        ensures
            tree_wf(t@),
            t@.len() == 1,
            node(t@, 0).children.len() == 0,
    {
        DomTree { arena: NodeArena::new() }
    }

    /// Creates an HTML element with the given local name.
    pub fn create_element(&mut self, local_name: &str) -> (id: usize)
        requires
            old(self)@.len() < usize::MAX,
        ensures
            tree_wf(final(self)@),
            id == old(self)@.len(),
            final(self)@ == old(self)@.push(
                Some(
                    NodeModel {
                        data: DataModel::Element { prefix: None, ns: html_ns(), local: local_name@, attrs: Seq::empty() },
                        parent: None,
                        children: Seq::empty(),
                    },
                ),
            ),
    {
        proof {
            use_type_invariant(&*self);
        }
        let mut arena = NodeArena::new();
        std::mem::swap(&mut arena, &mut self.arena);
        let r = arena.create_element(local_name);
        self.arena = arena;
        r
    }

    /// Creates an element in a namespace: only the HTML namespace (given as
    /// null, the empty string or its URL) is supported.
    pub fn create_element_ns(&mut self, namespace: Option<&str>, qualified_name: &str) -> (r: Result<usize, String>)
        requires
            old(self)@.len() < usize::MAX,
        ensures
            tree_wf(final(self)@),
            match r {
                Ok(id) => {
                    &&& (namespace is None || namespace->0@.len() == 0 || namespace->0@ == html_ns())
                    &&& id == old(self)@.len()
                    &&& final(self)@ == old(self)@.push(
                        Some(
                            NodeModel {
                                data: DataModel::Element { prefix: None, ns: html_ns(), local: qualified_name@, attrs: Seq::empty() },
                                parent: None,
                                children: Seq::empty(),
                            },
                        ),
                    )
                },
                Err(e) => {
                    &&& namespace is Some
                    &&& !(namespace->0@.len() == 0 || namespace->0@ == html_ns())
                    &&& e@ == "unsupported namespace `"@ + namespace->0@ + "` in createElementNS"@
                    &&& final(self)@ == old(self)@
                },
            },
    {
        proof {
            use_type_invariant(&*self);
        }
        let mut arena = NodeArena::new();
        std::mem::swap(&mut arena, &mut self.arena);
        let r = arena.create_element_ns(namespace, qualified_name);
        self.arena = arena;
        r
    }

    /// Creates a text node.
    pub fn create_text_node(&mut self, data: &str) -> (id: usize)
        requires
            old(self)@.len() < usize::MAX,
        ensures
            tree_wf(final(self)@),
            id == old(self)@.len(),
            final(self)@ == old(self)@.push(Some(NodeModel { data: DataModel::Text(data@), parent: None, children: Seq::empty() })),
    {
        proof {
            use_type_invariant(&*self);
        }
        let mut arena = NodeArena::new();
        std::mem::swap(&mut arena, &mut self.arena);
        let r = arena.create_text_node(data);
        self.arena = arena;
        r
    }

    /// Creates a comment node.
    pub fn create_comment(&mut self) -> (id: usize)
        requires
            old(self)@.len() < usize::MAX,
        ensures
            tree_wf(final(self)@),
            id == old(self)@.len(),
            final(self)@ == old(self)@.push(Some(NodeModel { data: DataModel::Comment, parent: None, children: Seq::empty() })),
    {
        proof {
            use_type_invariant(&*self);
        }
        let mut arena = NodeArena::new();
        std::mem::swap(&mut arena, &mut self.arena);
        let r = arena.create_comment();
        self.arena = arena;
        r
    }

    /// Ensure pre-insertion validity of `n` into `parent` before `child`.
    pub fn ensure_pre_insertion_validity(&self, n: usize, parent: usize, child: Option<usize>) -> (r: Result<(), DOMException>)
        ensures
            match r {
                Ok(()) => pre_insertion_error(self@, n as int, parent as int, child) is None,
                Err(e) => pre_insertion_error(self@, n as int, parent as int, child) == Some(e.name()),
            },
    {
        proof {
            use_type_invariant(self);
        }
        self.arena.ensure_pre_insertion_validity(n, parent, child)
    }

    /// Pre-insert `n` into `parent` before `child`: the node is returned once
    /// inserted, or the error of pre-insertion validity is thrown and the
    /// tree is left as it was.
    pub fn pre_insert(&mut self, n: usize, parent: usize, child: Option<usize>) -> (r: Result<usize, DOMException>)
        ensures
            tree_wf(final(self)@),
            match r {
                Ok(id) => {
                    &&& pre_insertion_error(old(self)@, n as int, parent as int, child) is None
                    &&& id == n
                    &&& final(self)@ == pre_insert_spec(old(self)@, n as int, parent as int, child)
                },
                Err(e) => {
                    &&& pre_insertion_error(old(self)@, n as int, parent as int, child) == Some(e.name())
                    &&& final(self)@ == old(self)@
                },
            },
    {
        proof {
            use_type_invariant(&*self);
        }
        let mut arena = NodeArena::new();
        std::mem::swap(&mut arena, &mut self.arena);
        let r = arena.pre_insert(n, parent, child);
        self.arena = arena;
        r
    }

    /// appendChild(): pre-insert the node into the parent before null.
    pub fn append_child(&mut self, parent: usize, n: usize) -> (r: Result<usize, DOMException>)
        ensures
            tree_wf(final(self)@),
            match r {
                Ok(id) => {
                    &&& pre_insertion_error(old(self)@, n as int, parent as int, None) is None
                    &&& id == n
                    &&& final(self)@ == pre_insert_spec(old(self)@, n as int, parent as int, None)
                },
                Err(e) => {
                    &&& pre_insertion_error(old(self)@, n as int, parent as int, None) == Some(e.name())
                    &&& final(self)@ == old(self)@
                },
            },
    {
        proof {
            use_type_invariant(&*self);
        }
        let mut arena = NodeArena::new();
        std::mem::swap(&mut arena, &mut self.arena);
        let r = arena.append_child(parent, n);
        self.arena = arena;
        r
    }

    /// insertBefore(): pre-insert the node into the parent before the
    /// reference child.
    pub fn insert_before(&mut self, parent: usize, n: usize, reference_child: Option<usize>) -> (r: Result<usize, DOMException>)
        ensures
            tree_wf(final(self)@),
            match r {
                Ok(id) => {
                    &&& pre_insertion_error(old(self)@, n as int, parent as int, reference_child) is None
                    &&& id == n
                    &&& final(self)@ == pre_insert_spec(old(self)@, n as int, parent as int, reference_child)
                },
                Err(e) => {
                    &&& pre_insertion_error(old(self)@, n as int, parent as int, reference_child) == Some(e.name())
                    &&& final(self)@ == old(self)@
                },
            },
    {
        proof {
            use_type_invariant(&*self);
        }
        let mut arena = NodeArena::new();
        std::mem::swap(&mut arena, &mut self.arena);
        let r = arena.insert_before(parent, n, reference_child);
        self.arena = arena;
        r
    }

    /// remove(): a node with a parent leaves it.
    pub fn remove(&mut self, id: usize)
        ensures
            tree_wf(final(self)@),
            final(self)@ == (if parent_of(old(self)@, id as int) is Some {
                detach_spec(old(self)@, id as int)
            } else {
                old(self)@
            }),
    {
        proof {
            use_type_invariant(&*self);
        }
        let mut arena = NodeArena::new();
        std::mem::swap(&mut arena, &mut self.arena);
        let r = arena.remove(id);
        self.arena = arena;
        r
    }

    /// removeChild(): the child leaves the receiver, which must be its
    /// parent.
    pub fn remove_child(&mut self, parent: usize, child: usize) -> (r: Result<(), String>)
        ensures
            tree_wf(final(self)@),
            r is Ok <==> parent_of(old(self)@, child as int) == Some(parent),
            r is Ok ==> final(self)@ == detach_spec(old(self)@, child as int),
            r matches Err(e) ==> e@ == "removeChild requires a child of the receiver"@ && final(self)@
                == old(self)@,
    {
        proof {
            use_type_invariant(&*self);
        }
        let mut arena = NodeArena::new();
        std::mem::swap(&mut arena, &mut self.arena);
        let r = arena.remove_child(parent, child);
        self.arena = arena;
        r
    }

    /// The nodes of the subtree rooted at a node, the node first, in tree
    /// order; none for a node the tree does not hold.
    pub fn subtree_node_ids(&self, id: usize) -> (ids: Vec<usize>)
        ensures
            ids@ == subtree_ids(self@, id, self@.len()),
    {
        proof {
            use_type_invariant(self);
        }
        self.arena.subtree_node_ids(id)
    }

    /// The nodes of the subtrees of a node's children, in tree order.
    pub fn child_subtree_node_ids(&self, id: usize) -> (ids: Vec<usize>)
        ensures
            ids@ == forest_ids(self@, children_of(self@, id as int), self@.len()),
    {
        proof {
            use_type_invariant(self);
        }
        self.arena.child_subtree_node_ids(id)
    }

    /// The textContent getter.
    pub fn get_text_content(&self, id: usize) -> (r: Option<String>)
        ensures
            opt_seq(r) == get_text_content_spec(self@, id as int),
    {
        proof {
            use_type_invariant(self);
        }
        self.arena.get_text_content(id)
    }

    /// The textContent getter (the node's text content).
    pub fn text_content(&self, id: usize) -> (r: Option<String>)
        ensures
            opt_seq(r) == get_text_content_spec(self@, id as int),
    {
        proof {
            use_type_invariant(self);
        }
        self.arena.text_content(id)
    }

    /// String replace all with a string within a node.
    pub fn string_replace_all(&mut self, parent: usize, value: &str)
        requires
            old(self)@.len() < usize::MAX,
        ensures
            tree_wf(final(self)@),
            final(self)@ == replace_all_spec(old(self)@, parent as int, value@),
    {
        proof {
            use_type_invariant(&*self);
        }
        let mut arena = NodeArena::new();
        std::mem::swap(&mut arena, &mut self.arena);
        let r = arena.string_replace_all(parent, value);
        self.arena = arena;
        r
    }

    /// The set text content algorithm.
    pub fn run_set_text_content(&mut self, id: usize, value: &str)
        requires
            old(self)@.len() < usize::MAX,
        ensures
            tree_wf(final(self)@),
            final(self)@ == set_text_content_spec(old(self)@, id as int, value@),
    {
        proof {
            use_type_invariant(&*self);
        }
        let mut arena = NodeArena::new();
        std::mem::swap(&mut arena, &mut self.arena);
        let r = arena.run_set_text_content(id, value);
        self.arena = arena;
        r
    }

    /// The textContent setter: null acts as the empty string.
    pub fn set_text_content(&mut self, id: usize, value: Option<&str>)
        requires
            old(self)@.len() < usize::MAX,
        ensures
            tree_wf(final(self)@),
            final(self)@ == set_text_content_spec(
                old(self)@,
                id as int,
                match value {
                    Some(v) => v@,
                    None => Seq::empty(),
                },
            ),
    {
        proof {
            use_type_invariant(&*self);
        }
        let mut arena = NodeArena::new();
        std::mem::swap(&mut arena, &mut self.arena);
        let r = arena.set_text_content(id, value);
        self.arena = arena;
        r
    }

    /// The nodeValue setter: a text node takes the value (null acting as
    /// the empty string); other nodes are left alone.
    pub fn set_node_value(&mut self, id: usize, value: Option<&str>)
        requires
            old(self)@.len() < usize::MAX,
        ensures
            tree_wf(final(self)@),
            final(self)@ == (if live(old(self)@, id as int) && node(old(self)@, id as int).data is Text {
                set_text_spec(
                    old(self)@,
                    id as int,
                    match value {
                        Some(v) => v@,
                        None => Seq::empty(),
                    },
                )
            } else {
                old(self)@
            }),
    {
        proof {
            use_type_invariant(&*self);
        }
        let mut arena = NodeArena::new();
        std::mem::swap(&mut arena, &mut self.arena);
        let r = arena.set_node_value(id, value);
        self.arena = arena;
        r
    }

    /// getAttribute().
    pub fn get_attribute(&self, id: usize, qualified_name: &str) -> (r: Option<String>)
        ensures
            opt_seq(r) == get_attribute_spec(self@, id as int, qualified_name@),
    {
        proof {
            use_type_invariant(self);
        }
        self.arena.get_attribute(id, qualified_name)
    }

    /// hasAttribute().
    pub fn has_attribute(&self, id: usize, qualified_name: &str) -> (b: bool)
        ensures
            b == (get_attribute_spec(self@, id as int, qualified_name@) is Some),
    {
        proof {
            use_type_invariant(self);
        }
        self.arena.has_attribute(id, qualified_name)
    }

    /// The value of the first attribute with the given local name, as the
    /// id getter reads it.
    pub fn attr_by_local_name(&self, id: usize, local: &str) -> (r: Option<String>)
        ensures
            opt_seq(r) == attr_by_local_spec(self@, id as int, local@),
    {
        proof {
            use_type_invariant(self);
        }
        self.arena.attr_by_local_name(id, local)
    }

    /// The id getter: the value of the id attribute, or the empty string.
    pub fn element_id(&self, id: usize) -> (r: String)
        ensures
            ({
                let attrs = element_attrs(self@, id as int);
                let i = first_match(attrs, attr_local_is("id"@));
                r@ == if i >= 0 { attrs[i].value } else { Seq::empty() }
            }),
    {
        proof {
            use_type_invariant(self);
        }
        self.arena.element_id(id)
    }

    /// The tagName getter: the element's local name uppercased, or the
    /// empty string for another node.
    pub fn tag_name(&self, id: usize) -> (r: String)
        ensures
            r@ == (if live(self@, id as int) && node(self@, id as int).data is Element {
                ascii_upper_seq(node(self@, id as int).data->Element_local)
            } else {
                Seq::empty()
            }),
    {
        proof {
            use_type_invariant(self);
        }
        self.arena.tag_name(id)
    }

    /// Whether a node is connected: the document is its inclusive ancestor.
    pub fn is_connected(&self, id: usize) -> (b: bool)
        ensures
            b == is_inclusive_ancestor_spec(self@, 0, id as int),
    {
        proof {
            use_type_invariant(self);
        }
        self.arena.is_connected(id)
    }

    /// setAttribute(): the first attribute whose qualified name is the
    /// normalized name takes the value; without one, an attribute with no
    /// prefix or namespace is appended.
    pub fn set_attribute(&mut self, id: usize, qualified_name: &str, value: &str)
        ensures
            tree_wf(final(self)@),
            final(self)@ == set_attr_by_name_spec(
                old(self)@,
                id as int,
                normalized_name(old(self)@, id as int, qualified_name@),
                value@,
            ),
    {
        proof {
            use_type_invariant(&*self);
        }
        let mut arena = NodeArena::new();
        std::mem::swap(&mut arena, &mut self.arena);
        let r = arena.set_attribute(id, qualified_name, value);
        self.arena = arena;
        r
    }

    /// setAttributeNS(): the qualified name is split into prefix and local
    /// name; a null namespace is the empty one.
    pub fn set_attribute_ns(&mut self, id: usize, namespace: Option<&str>, qualified_name: &str, value: &str)
        ensures
            tree_wf(final(self)@),
            final(self)@ == set_attr_spec(
                old(self)@,
                id as int,
                split_qualified_spec(qualified_name@).0,
                match namespace {
                    Some(n) => n@,
                    None => Seq::empty(),
                },
                split_qualified_spec(qualified_name@).1,
                value@,
            ),
    {
        proof {
            use_type_invariant(&*self);
        }
        let mut arena = NodeArena::new();
        std::mem::swap(&mut arena, &mut self.arena);
        let r = arena.set_attribute_ns(id, namespace, qualified_name, value);
        self.arena = arena;
        r
    }

    /// removeAttribute().
    pub fn remove_attribute(&mut self, id: usize, qualified_name: &str)
        ensures
            tree_wf(final(self)@),
            final(self)@ == remove_attribute_spec(old(self)@, id as int, qualified_name@),
    {
        proof {
            use_type_invariant(&*self);
        }
        let mut arena = NodeArena::new();
        std::mem::swap(&mut arena, &mut self.arena);
        let r = arena.remove_attribute(id, qualified_name);
        self.arena = arena;
        r
    }

    /// The dir getter of a document: the canonical value of the document
    /// element's dir attribute, or the empty string.
    pub fn dir(&self) -> (r: String)
        ensures
            r@ == (match document_element_spec(self@) {
                Some(e) => match get_attribute_spec(self@, e as int, "dir"@) {
                    Some(v) => canonical_dir_spec(v),
                    None => Seq::empty(),
                },
                None => Seq::empty(),
            }),
    {
        proof {
            use_type_invariant(self);
        }
        self.arena.dir()
    }

    /// insertAdjacentText(): a new text node goes before the element, as
    /// its first or last child, or after it.
    pub fn insert_adjacent_text(&mut self, id: usize, position: &str, data: &str) -> (r: Result<(), DOMException>)
        requires
            old(self)@.len() < usize::MAX,
        ensures
            tree_wf(final(self)@),
            final(self)@ == insert_adjacent_text_spec(old(self)@, id as int, position@, data@).0,
            match r {
                Ok(()) => insert_adjacent_text_spec(old(self)@, id as int, position@, data@).1 is None,
                Err(e) => insert_adjacent_text_spec(old(self)@, id as int, position@, data@).1 == Some(e.name()),
            },
    {
        proof {
            use_type_invariant(&*self);
        }
        let mut arena = NodeArena::new();
        std::mem::swap(&mut arena, &mut self.arena);
        let r = arena.insert_adjacent_text(id, position, data);
        self.arena = arena;
        r
    }

    /// The dir setter of a document: sets the document element's dir
    /// attribute, where there is a document element.
    pub fn set_dir(&mut self, dir: &str)
        ensures
            tree_wf(final(self)@),
            final(self)@ == match document_element_spec(old(self)@) {
                Some(e) => set_attr_by_name_spec(old(self)@, e as int, normalized_name(old(self)@, e as int, "dir"@),
                    dir@,
                ),
                None => old(self)@,
            },
    {
        proof {
            use_type_invariant(&*self);
        }
        let mut arena = NodeArena::new();
        std::mem::swap(&mut arena, &mut self.arena);
        let r = arena.set_dir(dir);
        self.arena = arena;
        r
    }

    /// The number of slots of the arena.
    pub fn len(&self) -> (n: usize)
        ensures
            n == self@.len(),
    {
        proof {
            use_type_invariant(self);
        }
        self.arena.len()
    }

    /// The node at an index, if the arena holds one.
    pub fn get(&self, id: usize) -> (r: Option<&DomNode>)
        ensures
            match r {
                Some(n) => live(self@, id as int) && n@ == node(self@, id as int),
                None => !live(self@, id as int),
            },
    {
        proof {
            use_type_invariant(self);
        }
        self.arena.get(id)
    }

    /// The children of a node, in order.
    pub fn child_node_ids(&self, id: usize) -> (ids: Vec<usize>)
        ensures
            ids@ == children_of(self@, id as int),
    {
        proof {
            use_type_invariant(self);
        }
        self.arena.child_node_ids(id)
    }

    pub fn first_child(&self, id: usize) -> (r: Option<usize>)
        ensures
            r == (if children_of(self@, id as int).len() > 0 {
                Some(children_of(self@, id as int)[0])
            } else {
                None
            }),
    {
        proof {
            use_type_invariant(self);
        }
        self.arena.first_child(id)
    }

    pub fn last_child(&self, id: usize) -> (r: Option<usize>)
        ensures
            r == (if children_of(self@, id as int).len() > 0 {
                Some(children_of(self@, id as int).last())
            } else {
                None
            }),
    {
        proof {
            use_type_invariant(self);
        }
        self.arena.last_child(id)
    }

    pub fn parent_node(&self, id: usize) -> (r: Option<usize>)
        ensures
            r == parent_of(self@, id as int),
    {
        proof {
            use_type_invariant(self);
        }
        self.arena.parent_node(id)
    }

    pub fn has_child_nodes(&self, id: usize) -> (b: bool)
        ensures
            b == (children_of(self@, id as int).len() > 0),
    {
        proof {
            use_type_invariant(self);
        }
        self.arena.has_child_nodes(id)
    }

    /// The previous sibling of a node.
    pub fn previous_sibling(&self, id: usize) -> (r: Option<usize>)
        ensures
            r == previous_sibling_spec(self@, id as int),
    {
        proof {
            use_type_invariant(self);
        }
        self.arena.previous_sibling(id)
    }

    /// The next sibling of a node.
    pub fn next_sibling(&self, id: usize) -> (r: Option<usize>)
        ensures
            r == next_sibling_spec(self@, id as int),
    {
        proof {
            use_type_invariant(self);
        }
        self.arena.next_sibling(id)
    }

    /// The node type attribute.
    pub fn node_type(&self, id: usize) -> (r: u16)
        ensures
            r == node_type_spec(self@, id as int),
    {
        proof {
            use_type_invariant(self);
        }
        self.arena.node_type(id)
    }

    /// The node name attribute.
    pub fn node_name(&self, id: usize) -> (r: String)
        ensures
            r@ == node_name_spec(self@, id as int),
    {
        proof {
            use_type_invariant(self);
        }
        self.arena.node_name(id)
    }

    /// The owner document: the document node, for any node but the document
    /// itself.
    pub fn owner_document_node_id(&self, id: usize) -> (r: Option<usize>)
        ensures
            r == (if id != 0 {
                Some(0usize)
            } else {
                None
            }),
    {
        proof {
            use_type_invariant(self);
        }
        self.arena.owner_document_node_id(id)
    }

    /// The node value attribute.
    pub fn node_value(&self, id: usize) -> (r: Option<String>)
        ensures
            opt_seq(r) == node_value_spec(self@, id as int),
    {
        proof {
            use_type_invariant(self);
        }
        self.arena.node_value(id)
    }

    /// Whether `a` is an inclusive ancestor of `d`.
    pub fn is_inclusive_ancestor(&self, a: usize, d: usize) -> (b: bool)
        ensures
            b == is_inclusive_ancestor_spec(self@, a as int, d as int),
    {
        proof {
            use_type_invariant(self);
        }
        self.arena.is_inclusive_ancestor(a, d)
    }

    /// Whether the document has an element child.
    pub fn document_has_element_child(&self, parent: usize) -> (b: bool)
        ensures
            b == exists|k: int|
                0 <= k < children_of(self@, parent as int).len() && live(
                    self@,
                    #[trigger] children_of(self@, parent as int)[k] as int,
                ) && node(self@, children_of(self@, parent as int)[k] as int).data is Element,
    {
        proof {
            use_type_invariant(self);
        }
        self.arena.document_has_element_child(parent)
    }

    /// The document element: the first child of the document that is an
    /// element.
    pub fn document_element(&self) -> (r: Option<usize>)
        ensures
            r == document_element_spec(self@),
    {
        proof {
            use_type_invariant(self);
        }
        self.arena.document_element()
    }
}

/// Once following parents falls off the tree, it stays off.
pub proof fn lemma_ancestor_none_stays(t: Seq<Option<NodeModel>>, d: int, j: nat, k: nat)
    requires
        j <= k,
        ancestor_at(t, d, j) is None,
    ensures
        ancestor_at(t, d, k) is None,
    decreases k - j,
{
    if j < k {
        lemma_ancestor_none_stays(t, d, j, (k - 1) as nat);
    }
}



/// A node of a forest is one of its roots or is listed among the children
/// of a node the arena holds.
pub open spec fn listed_somewhere(t: Seq<Option<NodeModel>>, x: usize) -> bool {
    exists|y: int| live(t, y) && (#[trigger] node(t, y).children).contains(x)
}

pub proof fn lemma_forest_within(t: Seq<Option<NodeModel>>, cs: Seq<usize>, fuel: nat)
    ensures
        forall|x: usize| forest_ids(t, cs, fuel).contains(x) ==> (cs.contains(x) || listed_somewhere(t, x)),
    decreases fuel, cs.len(),
{
    if cs.len() > 0 {
        lemma_forest_within(t, cs.drop_last(), fuel);
        lemma_subtree_within(t, cs.last(), fuel);
        let f = forest_ids(t, cs, fuel);
        let fp = forest_ids(t, cs.drop_last(), fuel);
        let st = subtree_ids(t, cs.last(), fuel);
        assert forall|x: usize| f.contains(x) implies (cs.contains(x) || listed_somewhere(t, x)) by {
            let m = choose|m: int| 0 <= m < f.len() && f[m] == x;
            if m < fp.len() {
                assert(fp[m] == x);
                assert(fp.contains(x));
                if cs.drop_last().contains(x) {
                    let k = choose|k: int| 0 <= k < cs.drop_last().len() && cs.drop_last()[k] == x;
                    assert(cs[k] == x);
                }
            } else {
                assert(st[m - fp.len()] == x);
                assert(st.contains(x));
                if x == cs.last() {
                    assert(cs[cs.len() - 1] == x);
                }
            }
        }
    }
}

pub proof fn lemma_subtree_within(t: Seq<Option<NodeModel>>, id: usize, fuel: nat)
    ensures
        forall|x: usize| subtree_ids(t, id, fuel).contains(x) ==> x == id || listed_somewhere(t, x),
    decreases fuel, 0nat,
{
    if fuel > 0 && live(t, id as int) {
        let cs = node(t, id as int).children;
        lemma_forest_within(t, cs, (fuel - 1) as nat);
        let st = subtree_ids(t, id, fuel);
        let f = forest_ids(t, cs, (fuel - 1) as nat);
        assert forall|x: usize| st.contains(x) implies x == id || listed_somewhere(t, x) by {
            let m = choose|m: int| 0 <= m < st.len() && st[m] == x;
            if m > 0 {
                assert(f[m - 1] == x);
                assert(f.contains(x));
                if cs.contains(x) {
                    assert(live(t, id as int) && node(t, id as int).children.contains(x));
                }
            }
        }
    }
}

/// Changing what a node is, not its place, keeps the tree well formed, as
/// long as the document stays a document.
pub proof fn lemma_data_update_wf(t: Seq<Option<NodeModel>>, id: int, d: DataModel)
    requires
        tree_wf(t),
        live(t, id),
        id != 0 || d is Document,
    ensures
        tree_wf(t.update(id, Some(NodeModel { data: d, ..node(t, id) }))),
{
    let t2 = t.update(id, Some(NodeModel { data: d, ..node(t, id) }));
    assert forall|i: int| #![trigger t2[i]] live(t2, i) && node(t2, i).parent is Some && live(t2, node(t2, i).parent->0 as int) implies node(t2, node(t2, i).parent->0 as int).children.contains(i as usize) by {
        let q = node(t, i).parent->0 as int;
        assert(node(t2, q).children == node(t, q).children);
    }
    assert forall|q: int, k: int| #![trigger node(t2, q).children[k]] live(t2, q) && 0 <= k < node(t2, q).children.len() && live(t2, node(t2, q).children[k] as int) implies node(t2, node(t2, q).children[k] as int).parent == Some(q as usize) by {
        assert(node(t2, q).children == node(t, q).children);
        let c = node(t, q).children[k] as int;
        assert(node(t2, c).parent == node(t, c).parent);
    }
    assert forall|q: int, k: int| #![trigger node(t2, q).children[k]] live(t2, q) && 0 <= k < node(t2, q).children.len() implies node(t2, q).children[k] < t2.len() by {
        assert(node(t2, q).children == node(t, q).children);
    }
    assert forall|q: int| #![trigger t2[q]] live(t2, q) implies node(t2, q).children.no_duplicates() by {
        assert(node(t2, q).children == node(t, q).children);
    }
    assert forall|i: int| #![trigger t2[i]] live(t2, i) && node(t2, i).parent is Some implies node(t2, i).parent->0 < t2.len() by {
        assert(node(t2, i).parent == node(t, i).parent);
    }
}

/// Removing and dropping all the children of a node keeps the tree well
/// formed.
pub proof fn lemma_drop_children_wf(t: Seq<Option<NodeModel>>, parent: int)
    requires
        tree_wf(t),
        live(t, parent),
    ensures
        tree_wf(drop_children_spec(t, parent)),
        live(drop_children_spec(t, parent), parent),
        drop_children_spec(t, parent).len() == t.len(),
        forall|i: int| #![trigger drop_children_spec(t, parent)[i]] live(drop_children_spec(t, parent), i) ==> live(t, i),
{
    let cs = node(t, parent).children;
    let ids = forest_ids(t, cs, t.len());
    let t1 = t.update(parent, Some(NodeModel { children: Seq::empty(), ..node(t, parent) }));
    let t2 = drop_ids(t1, ids, parent);
    assert(t.len() >= 1);
    lemma_forest_holds_roots(t, cs, t.len());
    assert forall|j: int| #![trigger t2[j]] live(t2, j) implies t2[j] == t1[j] && live(t, j) by {}
    assert forall|i: int| #![trigger t2[i]] live(t2, i) && node(t2, i).parent is Some && live(t2, node(t2, i).parent->0 as int) implies node(t2, node(t2, i).parent->0 as int).children.contains(i as usize) by {
        let q = node(t, i).parent->0 as int;
        assert(t2[i] == t1[i]);
        assert(t2[q] == t1[q]);
        if q != parent {
            assert(t1[q] == t[q]);
            assert(t1[i] == t[i] || i == parent);
        }
        if q == parent {
            assert((i as usize) as int == i);
            assert(i != parent);
            assert(node(t, q).children.contains(i as usize));
            assert(cs.contains(i as usize));
            assert(ids.contains(i as usize));
            assert(i != 0);
        }
    }
}


/// The qualified name of an attribute.
pub fn attribute_qualified_name(a: &Attribute) -> (q: String)
    ensures
        q@ == attr_qualified_name(a@),
{
    match &a.prefix {
        Some(p) => {
            let pc = concat_str(p.as_str(), ":");
            concat_str(pc.as_str(), a.local.as_str())
        },
        None => a.local.clone(),
    }
}

/// A qualified name split at its first colon into prefix and local name.
pub fn split_qualified_name(q: &str) -> (r: (Option<String>, String))
    ensures
        (opt_seq(r.0), r.1@) == split_qualified_spec(q@),
{
    let cs = chars_of(q);
    let mut i: usize = 0;
    while i < cs.len()
        invariant
            i <= cs@.len(),
            cs@ == q@,
            forall|j: int| 0 <= j < i ==> !((|c: char| c == ':')(#[trigger] cs@[j])),
        decreases cs@.len() - i,
    {
        if cs[i] == ':' {
            proof {
                lemma_first_match_is(q@, |c: char| c == ':', i as int);
            }
            let mut pre: Vec<char> = Vec::new();
            let mut k: usize = 0;
            while k < i
                invariant
                    k <= i < cs@.len(),
                    pre@ == cs@.take(k as int),
                decreases i - k,
            {
                pre.push(cs[k]);
                k = k + 1;
                assert(pre@ =~= cs@.take(k as int));
            }
            let mut post: Vec<char> = Vec::new();
            let mut m: usize = i + 1;
            while m < cs.len()
                invariant
                    i + 1 <= m <= cs@.len(),
                    post@ == cs@.subrange(i as int + 1, m as int),
                decreases cs@.len() - m,
            {
                post.push(cs[m]);
                m = m + 1;
                assert(post@ =~= cs@.subrange(i as int + 1, m as int));
            }
            assert(cs@.subrange(i as int + 1, cs@.len() as int) =~= q@.skip(i as int + 1));
            return (
                Some(crate::text::string_from_chars(pre.as_slice())),
                crate::text::string_from_chars(post.as_slice()),
            );
        }
        i = i + 1;
    }
    proof {
        lemma_first_match_none(q@, |c: char| c == ':');
    }
    (None, q.to_owned())
}

/// Whether two optional strings are equal.
pub fn opt_str_eq(a: &Option<String>, b: &Option<String>) -> (r: bool)
    ensures
        r == (opt_seq(*a) == opt_seq(*b)),
{
    match (a, b) {
        (Some(x), Some(y)) => str_eq(x.as_str(), y.as_str()),
        (None, None) => true,
        _ => false,
    }
}

/// The index of the first attribute whose qualified name is `q`.
pub fn find_attr_named(attrs: &Vec<Attribute>, q: &str) -> (r: Option<usize>)
    ensures
        match r {
            Some(i) => i < attrs@.len() && first_match(attrs_view(attrs@), attr_named(q@)) == i,
            None => first_match(attrs_view(attrs@), attr_named(q@)) == -1,
        },
{
    let ghost v = attrs_view(attrs@);
    let mut i: usize = 0;
    while i < attrs.len()
        invariant
            i <= attrs@.len(),
            v == attrs_view(attrs@),
            forall|j: int| 0 <= j < i ==> !(#[trigger] attr_named(q@)(v[j])),
        decreases attrs@.len() - i,
    {
        let name = attribute_qualified_name(&attrs[i]);
        if str_eq(name.as_str(), q) {
            proof {
                lemma_first_match_is(v, attr_named(q@), i as int);
            }
            return Some(i);
        }
        i = i + 1;
    }
    proof {
        lemma_first_match_none(v, attr_named(q@));
    }
    None
}

/// The index of the first attribute with the given name parts.
pub fn find_attr_is(attrs: &Vec<Attribute>, prefix: &Option<String>, ns: &str, local: &str) -> (r: Option<usize>)
    ensures
        match r {
            Some(i) => i < attrs@.len() && first_match(attrs_view(attrs@), attr_is(opt_seq(*prefix), ns@, local@)) == i,
            None => first_match(attrs_view(attrs@), attr_is(opt_seq(*prefix), ns@, local@)) == -1,
        },
{
    let ghost v = attrs_view(attrs@);
    let ghost p = attr_is(opt_seq(*prefix), ns@, local@);
    let mut i: usize = 0;
    while i < attrs.len()
        invariant
            i <= attrs@.len(),
            v == attrs_view(attrs@),
            p == attr_is(opt_seq(*prefix), ns@, local@),
            forall|j: int| 0 <= j < i ==> !(#[trigger] p(v[j])),
        decreases attrs@.len() - i,
    {
        let a = &attrs[i];
        if opt_str_eq(&a.prefix, prefix) && str_eq(a.ns.as_str(), ns) && str_eq(a.local.as_str(), local) {
            proof {
                lemma_first_match_is(v, p, i as int);
            }
            return Some(i);
        }
        i = i + 1;
    }
    proof {
        lemma_first_match_none(v, p);
    }
    None
}

/// The canonical value of the dir attribute: ltr, rtl or auto, matched
/// ASCII case-insensitively, else the empty string.
pub fn canonical_document_dir(value: &str) -> (r: &'static str)
    ensures
        r@ == canonical_dir_spec(value@),
{
    if str_eq_ignore_ascii_case(value, "ltr") {
        "ltr"
    } else if str_eq_ignore_ascii_case(value, "rtl") {
        "rtl"
    } else if str_eq_ignore_ascii_case(value, "auto") {
        "auto"
    } else {
        proof {
            reveal_strlit("");
        }
        ""
    }
}


/// A node appended to a parent, once pre-insertion validity holds, is the
/// parent's last child and names the parent as its parent; the parent's
/// other children keep their order.
pub proof fn law_append_child_places_last(t: Seq<Option<NodeModel>>, n: int, parent: int)
    requires
        tree_wf(t),
        pre_insertion_error(t, n, parent, None) is None,
    ensures
        ({
            let t2 = pre_insert_spec(t, n, parent, None);
            &&& parent_of(t2, n) == Some(parent as usize)
            &&& children_of(t2, parent).last() == n as usize
            &&& children_of(t2, parent).drop_last() == without(children_of(t, parent), is_id(n as usize))
        }),
{
    assert(n != 0) by {
        assert(node(t, 0).data is Document);
    }
    assert(ancestor_at(t, parent, 0) == Some(parent as usize));
    lemma_detach_wf(t, n);
    let t1 = detach_spec(t, n);
    let cs1 = children_of(t1, parent);
    if parent_of(t, n) == Some(parent as usize) {
        assert(cs1 == without(children_of(t, parent), is_id(n as usize)));
    } else {
        assert(cs1 == children_of(t, parent));
        lemma_without_sub(children_of(t, parent), is_id(n as usize));
        assert(!children_of(t, parent).contains(n as usize)) by {
            if children_of(t, parent).contains(n as usize) {
                let k = choose|k: int| 0 <= k < children_of(t, parent).len() && children_of(t, parent)[k] == n as usize;
                assert(node(t, parent).children[k] == n as usize);
                assert((n as usize) as int == n);
            }
        }
        assert forall|j: int| 0 <= j < children_of(t, parent).len() implies !(#[trigger] is_id(n as usize)(children_of(t, parent)[j])) by {
            if children_of(t, parent)[j] == n as usize {
                assert(children_of(t, parent).contains(n as usize));
            }
        }
        crate::lookup::lemma_without_none(children_of(t, parent), is_id(n as usize));
    }
    let t2 = attach_spec(t1, n, parent, cs1.len() as int);
    assert(children_of(t2, parent) == cs1.insert(cs1.len() as int, n as usize));
    assert(cs1.insert(cs1.len() as int, n as usize) =~= cs1.push(n as usize));
}

/// A removed node has no parent, and its former parent no longer lists it.
pub proof fn law_removed_node_is_detached(t: Seq<Option<NodeModel>>, id: int)
    requires
        tree_wf(t),
        parent_of(t, id) is Some,
    ensures
        ({
            let t2 = detach_spec(t, id);
            let p = parent_of(t, id)->0 as int;
            &&& parent_of(t2, id) is None
            &&& live(t, p) ==> !children_of(t2, p).contains(id as usize)
            &&& tree_wf(t2)
        }),
{
    assert(id != 0);
    lemma_detach_wf(t, id);
    let p = parent_of(t, id)->0 as int;
    if live(t, p) {
        lemma_without_sub(node(t, p).children, is_id(id as usize));
        crate::lookup::lemma_without_excludes(node(t, p).children, is_id(id as usize));
        if p != id {
            let t2 = detach_spec(t, id);
            assert(children_of(t2, p) == without(node(t, p).children, is_id(id as usize)));
        }
    }
}

/// Reading the text content of an element or a text node gives back the
/// string last written to it.
pub proof fn law_text_content_round_trip(t: Seq<Option<NodeModel>>, id: int, s: Seq<char>)
    requires
        tree_wf(t),
        live(t, id),
        node(t, id).data is Element || node(t, id).data is Text,
    ensures
        get_text_content_spec(set_text_content_spec(t, id, s), id) == Some(s),
{
    assert(id != 0) by {
        assert(node(t, 0).data is Document);
    }
    if node(t, id).data is Text {
        let t2 = set_text_spec(t, id, s);
        assert(live(t2, id));
    } else {
        if s.len() > 0 {
            let t1 = t.push(Some(NodeModel { data: DataModel::Text(s), parent: None, children: Seq::empty() }));
            let text = t.len() as int;
            let td = drop_children_spec(t1, id);
            let ids = forest_ids(t1, node(t1, id).children, t1.len());
            assert(t1[id] == t[id]);
            assert(!ids.contains(text as usize)) by {
                lemma_forest_within(t1, node(t1, id).children, t1.len());
                if node(t1, id).children.contains(text as usize) {
                    let k = choose|k: int| 0 <= k < node(t1, id).children.len() && node(t1, id).children[k] == text as usize;
                    assert(node(t, id).children[k] < t.len());
                }
                if listed_somewhere(t1, text as usize) {
                    let y = choose|y: int| live(t1, y) && (#[trigger] node(t1, y).children).contains(text as usize);
                    if y < t.len() {
                        assert(t1[y] == t[y]);
                        let k = choose|k: int| 0 <= k < node(t, y).children.len() && node(t, y).children[k] == text as usize;
                        assert(node(t, y).children[k] < t.len());
                    } else {
                        assert(node(t1, y).children.len() == 0);
                    }
                }
            }
            assert(td[text] == t1[text]);
            assert(td[id] is Some);
            assert(node(td, id).children.len() == 0);
            let t2 = attach_spec(td, text, id, 0);
            assert(node(t2, id).children =~= seq![text as usize]);
            assert(node(t2, id).data == node(t, id).data);
            assert(node(t2, text).data == DataModel::Text(s));
            let f = t2.len();
            assert(f >= 2);
            let cs = node(t2, id).children;
            assert(cs.drop_last() =~= Seq::<usize>::empty());
            assert(forest_text(t2, Seq::<usize>::empty(), (f - 1) as nat) == Seq::<char>::empty());
            assert(text_of(t2, text as usize, (f - 1) as nat) == s);
            assert(forest_text(t2, cs, (f - 1) as nat) =~= s);
            assert(text_of(t2, id as usize, f) == s);
        } else {
            let td = drop_children_spec(t, id);
            assert(td[id] is Some);
            assert(node(td, id).children.len() == 0);
            let f = td.len();
            assert(forest_text(td, node(td, id).children, (f - 1) as nat) == Seq::<char>::empty());
            assert(text_of(td, id as usize, f) =~= s);
        }
    }
}

/// getAttribute() after setAttribute() on an element gives back the value
/// set.
pub proof fn law_set_then_get_attribute(t: Seq<Option<NodeModel>>, id: int, q: Seq<char>, v: Seq<char>)
    requires
        tree_wf(t),
        live(t, id),
        node(t, id).data is Element,
    ensures
        get_attribute_spec(set_attr_by_name_spec(t, id, normalized_name(t, id, q), v), id, q) == Some(v),
{
    let n = normalized_name(t, id, q);
    let attrs = element_attrs(t, id);
    let t2 = set_attr_by_name_spec(t, id, n, v);
    assert(normalized_name(t2, id, q) == n);
    let i = first_match(attrs, attr_named(n));
    crate::lookup::lemma_first_match_range(attrs, attr_named(n));
    if i >= 0 {
        let a2 = attrs.update(i, AttrModel { value: v, ..attrs[i] });
        assert(element_attrs(t2, id) == a2);
        assert forall|j: int| 0 <= j < i implies !(#[trigger] attr_named(n)(a2[j])) by {
            assert(a2[j] == attrs[j]);
        }
        assert(attr_qualified_name(a2[i]) == attr_qualified_name(attrs[i]));
        lemma_first_match_is(a2, attr_named(n), i);
    } else {
        let a2 = attrs.push(AttrModel { prefix: None, ns: Seq::empty(), local: n, value: v });
        assert(element_attrs(t2, id) == a2);
        assert forall|j: int| 0 <= j < attrs.len() implies !(#[trigger] attr_named(n)(a2[j])) by {
            assert(a2[j] == attrs[j]);
            if attr_named(n)(attrs[j]) {
                crate::lookup::lemma_first_match_exists(attrs, attr_named(n), j);
            }
        }
        lemma_first_match_is(a2, attr_named(n), attrs.len() as int);
    }
}

/// Where all attributes of an element with a given qualified name share
/// its prefix and namespace, removeAttribute() leaves none:
/// getAttribute() then gives nothing.
pub proof fn law_remove_then_get_attribute(t: Seq<Option<NodeModel>>, id: int, q: Seq<char>)
    requires
        tree_wf(t),
        live(t, id),
        node(t, id).data is Element,
        forall|k: int, m: int|
            0 <= k < element_attrs(t, id).len() && 0 <= m < element_attrs(t, id).len() && attr_qualified_name(
                #[trigger] element_attrs(t, id)[k],
            ) == normalized_name(t, id, q) && attr_qualified_name(#[trigger] element_attrs(t, id)[m]) == normalized_name(t, id, q)
                ==> element_attrs(t, id)[k].prefix == element_attrs(t, id)[m].prefix && element_attrs(t, id)[k].ns
                == element_attrs(t, id)[m].ns && element_attrs(t, id)[k].local == element_attrs(t, id)[m].local,
    ensures
        get_attribute_spec(remove_attribute_spec(t, id, q), id, q) is None,
{
    let n = normalized_name(t, id, q);
    let attrs = element_attrs(t, id);
    let i = first_match(attrs, attr_named(n));
    crate::lookup::lemma_first_match_range(attrs, attr_named(n));
    if i >= 0 {
        let p = attr_is(attrs[i].prefix, attrs[i].ns, attrs[i].local);
        let w = without(attrs, p);
        let t2 = remove_attribute_spec(t, id, q);
        assert(element_attrs(t2, id) == w);
        assert(normalized_name(t2, id, q) == n);
        lemma_without_sub(attrs, p);
        assert forall|j: int| 0 <= j < w.len() implies !(#[trigger] attr_named(n)(w[j])) by {
            assert(w.contains(w[j]));
            assert(attrs.contains(w[j]));
            let m = choose|m: int| 0 <= m < attrs.len() && attrs[m] == w[j];
            if attr_qualified_name(w[j]) == n {
                assert(attr_qualified_name(attrs[m]) == n);
                assert(p(attrs[m]));
            }
        }
        lemma_first_match_none(w, attr_named(n));
    }
}

/// A list of node ids without the given one.
pub fn remove_id(v: &Vec<usize>, id: usize) -> (out: Vec<usize>)
    ensures
        out@ == without(v@, is_id(id)),
{
    let mut out: Vec<usize> = Vec::new();
    let mut i: usize = v.len();
    let ghost mut suffix: Seq<usize> = Seq::empty();
    while i > 0
        invariant
            i <= v@.len(),
            out@ == without(v@.subrange(i as int, v@.len() as int), is_id(id)),
        decreases i,
    {
        i = i - 1;
        let ghost rest = v@.subrange(i as int + 1, v@.len() as int);
        let ghost cur = v@.subrange(i as int, v@.len() as int);
        assert(cur.drop_first() =~= rest);
        assert(cur[0] == v@[i as int]);
        if v[i] != id {
            out.insert(0, v[i]);
            assert(out@ =~= seq![v@[i as int]] + without(rest, is_id(id)));
        }
    }
    assert(v@.subrange(0, v@.len() as int) =~= v@);
    out
}

/// A copy of a list of node ids.
pub fn copy_ids(v: &Vec<usize>) -> (out: Vec<usize>)
    ensures
        out@ == v@,
{
    let mut out: Vec<usize> = Vec::new();
    let mut i: usize = 0;
    while i < v.len()
        invariant
            i <= v@.len(),
            out@ == v@.take(i as int),
        decreases v@.len() - i,
    {
        out.push(v[i]);
        i = i + 1;
        assert(out@ =~= v@.take(i as int));
    }
    assert(v@.take(i as int) =~= v@);
    out
}

} // verus!

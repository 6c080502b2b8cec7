//! The recursive document model shared by the arena and the path-addressed
//! DOM operations: a document is a list of top-level nodes, a node is either
//! an element (tag, ordered attributes, children) or a text node.

use vstd::prelude::*;

verus! {

/// An element: tag name, attributes in insertion order (names are unique
/// where the library builds them), and child nodes.
#[derive(Debug, PartialEq, Eq)]
pub struct Element {
    pub tag: String,
    pub attrs: Vec<(String, String)>,
    pub children: Vec<Node>,
}

/// A document node.
#[derive(Debug, PartialEq, Eq)]
pub enum Node {
    Element(Element),
    Text(String),
}

/// A parsed document: its top-level nodes.
#[derive(Debug, PartialEq, Eq)]
pub struct Document {
    pub children: Vec<Node>,
}

/// Mathematical value of a node.
pub enum NodeV {
    Element { tag: Seq<char>, attrs: Seq<(Seq<char>, Seq<char>)>, children: Seq<NodeV> },
    Text(Seq<char>),
}

pub open spec fn attrs_view(a: Seq<(String, String)>) -> Seq<(Seq<char>, Seq<char>)> {
    Seq::new(a.len(), |i: int| (a[i].0@, a[i].1@))
}

pub open spec fn node_view(n: Node) -> NodeV
    decreases n,
{
    match n {
        Node::Text(t) => NodeV::Text(t@),
        Node::Element(e) => NodeV::Element {
            tag: e.tag@,
            attrs: attrs_view(e.attrs@),
            children: nodes_view(e.children@),
        },
    }
}

pub open spec fn nodes_view(s: Seq<Node>) -> Seq<NodeV>
    decreases s,
{
    if s.len() == 0 {
        Seq::empty()
    } else {
        nodes_view(s.drop_last()).push(node_view(s.last()))
    }
}

pub open spec fn document_view(d: Document) -> Seq<NodeV> {
    nodes_view(d.children@)
}

pub proof fn lemma_nodes_view(s: Seq<Node>)
    ensures
        nodes_view(s).len() == s.len(),
        forall|i: int| 0 <= i < s.len() ==> #[trigger] nodes_view(s)[i] == node_view(s[i]),
    decreases s.len(),
{
    if s.len() > 0 {
        lemma_nodes_view(s.drop_last());
    }
}

/// Two node sequences with pointwise equal views have equal views.
pub proof fn lemma_nodes_view_ext(a: Seq<Node>, b: Seq<NodeV>)
    requires
        a.len() == b.len(),
        forall|i: int| 0 <= i < a.len() ==> node_view(#[trigger] a[i]) == b[i],
    ensures
        nodes_view(a) == b,
{
    lemma_nodes_view(a);
    assert(nodes_view(a) =~= b);
}

/// Copies attributes, keeping names and values.
pub fn clone_attrs(a: &Vec<(String, String)>) -> (r: Vec<(String, String)>)
    ensures
        r@ == a@,
{
    let mut r: Vec<(String, String)> = Vec::new();
    for i in 0..a.len()
        invariant
            r@ == a@.take(i as int),
    {
        r.push((a[i].0.clone(), a[i].1.clone()));
        assert(r@ =~= a@.take(i + 1));
    }
    assert(a@.take(a.len() as int) =~= a@);
    r
}

/// Deep copy of a node.
pub fn clone_node(n: &Node) -> (r: Node)
    ensures
        node_view(r) == node_view(*n),
    decreases n,
{
    match n {
        Node::Text(t) => Node::Text(t.clone()),
        Node::Element(e) => {
            let mut children: Vec<Node> = Vec::new();
            for i in 0..e.children.len()
                invariant
                    children.len() == i,
                    i <= e.children.len(),
                    *n == Node::Element(*e),
                    forall|j: int| 0 <= j < i ==> node_view(#[trigger] children@[j]) == node_view(e.children@[j]),
            {
                proof {
                    assert(decreases_to!(*n => (*n)->Element_0));
                    assert(decreases_to!((*n)->Element_0 => (*n)->Element_0.children));
                    assert(decreases_to!((*n)->Element_0.children => (*n)->Element_0.children@));
                    assert(decreases_to!((*n)->Element_0.children@ => (*n)->Element_0.children@[i as int]));
                }
                let c = clone_node(&e.children[i]);
                children.push(c);
            }
            proof {
                lemma_nodes_view(e.children@);
                lemma_nodes_view_ext(children@, nodes_view(e.children@));
            }
            Node::Element(Element { tag: e.tag.clone(), attrs: clone_attrs(&e.attrs), children })
        },
    }
}

} // verus!

verus! {

/// Number of nodes in a subtree (the node itself and all descendants).
pub open spec fn node_size(v: NodeV) -> nat
    decreases v,
{
    match v {
        NodeV::Text(_) => 1,
        NodeV::Element { children, .. } => 1 + nodes_size(children),
    }
}

/// Number of nodes in a forest.
pub open spec fn nodes_size(s: Seq<NodeV>) -> nat
    decreases s,
{
    if s.len() == 0 {
        0
    } else {
        nodes_size(s.drop_last()) + node_size(s.last())
    }
}

pub proof fn lemma_nodes_size_take(s: Seq<NodeV>, i: int)
    requires
        0 <= i < s.len(),
    ensures
        nodes_size(s.take(i + 1)) == nodes_size(s.take(i)) + node_size(s[i]),
{
    assert(s.take(i + 1).drop_last() =~= s.take(i));
}

pub proof fn lemma_nodes_size_take_le(s: Seq<NodeV>, i: int)
    requires
        0 <= i <= s.len(),
    ensures
        nodes_size(s.take(i)) <= nodes_size(s),
    decreases s.len() - i,
{
    if i < s.len() {
        lemma_nodes_size_take(s, i);
        lemma_nodes_size_take_le(s, i + 1);
    } else {
        assert(s.take(i) =~= s);
    }
}

} // verus!

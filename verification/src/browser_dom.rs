//! Arena-backed DOM: nodes live in a vector under stable ids, with explicit
//! parent and child links. Ids are handed out in creation order, a node's
//! parent always has a smaller id, and every node's child list is exactly the
//! ids whose parent is that node, in increasing order.

use vstd::prelude::*;

use crate::dom_tree::{attr_get, get_attr, has_word, has_word_exec};
use crate::selector::{
    complex_view, complexes_view, compound_view, parse_selector, parse_selector_exec, simple_view,
    Complex, ComplexV, Simple, SimpleV,
};
use crate::text::{lower, to_ascii_lowercase};
use crate::url::PairV;
use crate::document::{
    attrs_view, clone_attrs, document_view, lemma_nodes_size_take, lemma_nodes_size_take_le,
    lemma_nodes_view, lemma_nodes_view_ext, node_size, node_view, nodes_size, nodes_view, Document,
    Element, Node, NodeV,
};

verus! {

/// Stable id of an arena node.
#[derive(Debug, Clone, Copy, PartialEq, Eq, Hash, PartialOrd, Ord)]
pub struct NodeId(usize);

impl View for NodeId {
    type V = nat;

    closed spec fn view(&self) -> nat {
        self.0 as nat
    }
}

impl NodeId {
    pub fn index(self) -> (r: usize)
        ensures
            r == self@,
    {
        self.0
    }
}

/// Element payload of an arena node.
#[derive(Debug, Clone, PartialEq, Eq)]
pub struct DomElement {
    pub tag: String,
    pub attrs: Vec<(String, String)>,
}

/// Payload of an arena node.
#[derive(Debug, Clone, PartialEq, Eq)]
pub enum DomNodeKind {
    Element(DomElement),
    Text(String),
}

/// One arena slot.
#[derive(Debug, Clone, PartialEq, Eq)]
pub struct ArenaNode {
    pub parent: Option<NodeId>,
    pub children: Vec<NodeId>,
    pub kind: DomNodeKind,
}

/// Arena DOM.
#[derive(Debug, Clone, Default, PartialEq, Eq)]
pub struct DomArena {
    nodes: Vec<ArenaNode>,
    roots: Vec<NodeId>,
}

/// An optional id as an optional natural number.
pub open spec fn opt_id(p: Option<NodeId>) -> Option<nat> {
    match p {
        Some(p) => Some(p@),
        None => None,
    }
}

/// Parent index of an arena node, as a natural number.
pub open spec fn parent_of(n: ArenaNode) -> Option<nat> {
    match n.parent {
        Some(p) => Some(p@),
        None => None,
    }
}

pub open spec fn ids_view(s: Seq<NodeId>) -> Seq<nat> {
    Seq::new(s.len(), |i: int| s[i]@)
}

/// The ids `i < n` whose parent is `parent`, in increasing order.
pub open spec fn ids_with_parent(nodes: Seq<ArenaNode>, parent: Option<nat>, n: int) -> Seq<nat>
    decreases n,
{
    if n <= 0 {
        Seq::empty()
    } else if parent_of(nodes[n - 1]) == parent {
        ids_with_parent(nodes, parent, n - 1).push((n - 1) as nat)
    } else {
        ids_with_parent(nodes, parent, n - 1)
    }
}

/// Well-formedness of the arena's links.
pub open spec fn arena_wf(nodes: Seq<ArenaNode>, roots: Seq<NodeId>) -> bool {
    &&& forall|i: int|
        0 <= i < nodes.len() ==> (#[trigger] parent_of(nodes[i]) matches Some(p) ==> p < i)
    &&& forall|i: int|
        0 <= i < nodes.len() ==> ids_view(#[trigger] nodes[i].children@) == ids_with_parent(
            nodes,
            Some(i as nat),
            nodes.len() as int,
        )
    &&& ids_view(roots) == ids_with_parent(nodes, None, nodes.len() as int)
}

proof fn lemma_ids_with_parent_prefix(a: Seq<ArenaNode>, b: Seq<ArenaNode>, parent: Option<nat>, n: int)
    requires
        0 <= n <= a.len(),
        n <= b.len(),
        forall|i: int| 0 <= i < n ==> parent_of(#[trigger] a[i]) == parent_of(b[i]),
    ensures
        ids_with_parent(a, parent, n) == ids_with_parent(b, parent, n),
    decreases n,
{
    if n > 0 {
        lemma_ids_with_parent_prefix(a, b, parent, n - 1);
    }
}

proof fn lemma_ids_with_parent_bounds(nodes: Seq<ArenaNode>, parent: Option<nat>, n: int)
    requires
        0 <= n <= nodes.len(),
    ensures
        forall|k: int|
            0 <= k < ids_with_parent(nodes, parent, n).len() ==> {
                let c = #[trigger] ids_with_parent(nodes, parent, n)[k];
                &&& c < n
                &&& parent_of(nodes[c as int]) == parent
            },
        forall|k: int, l: int|
            0 <= k < l < ids_with_parent(nodes, parent, n).len() ==> ids_with_parent(nodes, parent, n)[k]
                < ids_with_parent(nodes, parent, n)[l],
    decreases n,
{
    if n > 0 {
        lemma_ids_with_parent_bounds(nodes, parent, n - 1);
    }
}


/// The recursive node rooted at arena id `id`: its payload and, for an
/// element, the subtrees of its children in order.
pub open spec fn subtree(nodes: Seq<ArenaNode>, id: int) -> NodeV
    decreases nodes.len() - id, 1int, 0int,
{
    if id < 0 || id >= nodes.len() {
        NodeV::Text(Seq::empty())
    } else {
        match nodes[id].kind {
            DomNodeKind::Text(t) => NodeV::Text(t@),
            DomNodeKind::Element(e) => NodeV::Element {
                tag: e.tag@,
                attrs: attrs_view(e.attrs@),
                children: subtrees(nodes, id, nodes[id].children@),
            },
        }
    }
}

/// Subtrees of the listed children of `id`.
pub open spec fn subtrees(nodes: Seq<ArenaNode>, id: int, ids: Seq<NodeId>) -> Seq<NodeV>
    decreases nodes.len() - id, 0int, ids.len(),
{
    if ids.len() == 0 {
        Seq::empty()
    } else {
        let c = ids.last()@ as int;
        subtrees(nodes, id, ids.drop_last()).push(
            if id < c && c < nodes.len() {
                subtree(nodes, c)
            } else {
                NodeV::Text(Seq::empty())
            },
        )
    }
}

/// The document an arena stands for: the subtrees of its roots.
pub open spec fn arena_document(nodes: Seq<ArenaNode>, roots: Seq<NodeId>) -> Seq<NodeV> {
    Seq::new(roots.len(), |i: int| subtree(nodes, roots[i]@ as int))
}

/// Every child id of a node at or above `lo` is larger than the node and
/// inside the arena.
pub open spec fn kids_bounded(nodes: Seq<ArenaNode>, lo: int) -> bool {
    forall|q: int, k: int|
        lo <= q < nodes.len() && 0 <= k < nodes[q].children@.len() ==> q
            < #[trigger] nodes[q].children@[k]@ < nodes.len()
}

/// `b` agrees with `a` on the payload and child lists of every id in
/// `[lo, a.len())`.
pub open spec fn same_from(a: Seq<ArenaNode>, b: Seq<ArenaNode>, lo: int) -> bool {
    &&& 0 <= lo
    &&& a.len() <= b.len()
    &&& forall|q: int|
        lo <= q < a.len() ==> (#[trigger] b[q]).kind == a[q].kind && b[q].children@
            == a[q].children@
}

proof fn lemma_subtrees_index(nodes: Seq<ArenaNode>, id: int, ids: Seq<NodeId>)
    requires
        forall|k: int| 0 <= k < ids.len() ==> id < (#[trigger] ids[k])@ < nodes.len(),
    ensures
        subtrees(nodes, id, ids).len() == ids.len(),
        forall|k: int|
            0 <= k < ids.len() ==> #[trigger] subtrees(nodes, id, ids)[k] == subtree(
                nodes,
                ids[k]@ as int,
            ),
    decreases ids.len(),
{
    if ids.len() > 0 {
        lemma_subtrees_index(nodes, id, ids.drop_last());
    }
}

proof fn lemma_wf_kids_bounded(nodes: Seq<ArenaNode>, roots: Seq<NodeId>)
    requires
        arena_wf(nodes, roots),
    ensures
        kids_bounded(nodes, 0),
        forall|k: int| 0 <= k < roots.len() ==> (#[trigger] roots[k])@ < nodes.len(),
{
    assert forall|q: int, k: int|
        0 <= q < nodes.len() && 0 <= k < nodes[q].children@.len() implies q
            < #[trigger] nodes[q].children@[k]@ < nodes.len() by {
        lemma_ids_with_parent_bounds(nodes, Some(q as nat), nodes.len() as int);
        assert(ids_view(nodes[q].children@)[k] == nodes[q].children@[k]@);
        let c = nodes[q].children@[k]@;
        assert(parent_of(nodes[c as int]) == Some(q as nat));
    }
    assert forall|k: int| 0 <= k < roots.len() implies (#[trigger] roots[k])@ < nodes.len() by {
        lemma_ids_with_parent_bounds(nodes, None, nodes.len() as int);
        assert(ids_view(roots)[k] == roots[k]@);
    }
}

proof fn lemma_subtree_frame(a: Seq<ArenaNode>, b: Seq<ArenaNode>, lo: int, x: int)
    requires
        same_from(a, b, lo),
        kids_bounded(a, lo),
        lo <= x < a.len(),
    ensures
        subtree(b, x) == subtree(a, x),
    decreases a.len() - x,
{
    let ids = a[x].children@;
    assert(b[x].children@ == ids);
    assert forall|k: int| 0 <= k < ids.len() implies x < (#[trigger] ids[k])@ < a.len() by {}
    lemma_subtrees_index(a, x, ids);
    lemma_subtrees_index(b, x, ids);
    assert forall|k: int| 0 <= k < ids.len() implies #[trigger] subtrees(b, x, ids)[k] == subtrees(a, x, ids)[k] by {
        lemma_subtree_frame(a, b, lo, ids[k]@ as int);
    }
    assert(subtrees(b, x, ids) =~= subtrees(a, x, ids));
}

impl DomArena {
    pub closed spec fn nodes_spec(&self) -> Seq<ArenaNode> {
        self.nodes@
    }

    pub closed spec fn roots_spec(&self) -> Seq<NodeId> {
        self.roots@
    }

    pub open spec fn wf(&self) -> bool {
        arena_wf(self.nodes_spec(), self.roots_spec())
    }

    pub fn new() -> (r: Self)
        ensures
            r.wf(),
            r.nodes_spec().len() == 0,
            r.roots_spec().len() == 0,
    {
        let r = DomArena { nodes: Vec::new(), roots: Vec::new() };
        assert(ids_view(r.roots@) =~= Seq::<nat>::empty());
        r
    }

    pub fn len(&self) -> (r: usize)
        ensures
            r == self.nodes_spec().len(),
    {
        self.nodes.len()
    }

    pub fn is_empty(&self) -> (r: bool)
        ensures
            r == (self.nodes_spec().len() == 0),
    {
        self.nodes.len() == 0
    }

    pub fn root_ids(&self) -> (r: &[NodeId])
        ensures
            r@ == self.roots_spec(),
    {
        self.roots.as_slice()
    }

    pub fn node(&self, id: NodeId) -> (r: Option<&ArenaNode>)
        ensures
            id@ < self.nodes_spec().len() ==> r == Some(&self.nodes_spec()[id@ as int]),
            id@ >= self.nodes_spec().len() ==> r.is_none(),
    {
        if id.0 < self.nodes.len() {
            Some(&self.nodes[id.0])
        } else {
            None
        }
    }

    pub fn parent(&self, id: NodeId) -> (r: Option<NodeId>)
        ensures
            id@ < self.nodes_spec().len() ==> r == self.nodes_spec()[id@ as int].parent,
            id@ >= self.nodes_spec().len() ==> r.is_none(),
    {
        match self.node(id) {
            Some(node) => node.parent,
            None => None,
        }
    }

    pub fn children(&self, id: NodeId) -> (r: Option<&[NodeId]>)
        ensures
            id@ < self.nodes_spec().len() ==> (r matches Some(c) && c@ == self.nodes_spec()[id@ as int].children@),
            id@ >= self.nodes_spec().len() ==> r.is_none(),
    {
        match self.node(id) {
            Some(node) => Some(node.children.as_slice()),
            None => None,
        }
    }

    pub fn kind(&self, id: NodeId) -> (r: Option<&DomNodeKind>)
        ensures
            id@ < self.nodes_spec().len() ==> r == Some(&self.nodes_spec()[id@ as int].kind),
            id@ >= self.nodes_spec().len() ==> r.is_none(),
    {
        match self.node(id) {
            Some(node) => Some(&node.kind),
            None => None,
        }
    }

    pub fn element(&self, id: NodeId) -> (r: Option<&DomElement>)
        ensures
            r matches Some(e) ==> id@ < self.nodes_spec().len()
                && self.nodes_spec()[id@ as int].kind == DomNodeKind::Element(*e),
            r.is_none() ==> id@ >= self.nodes_spec().len() || self.nodes_spec()[id@ as int].kind is Text,
    {
        match self.kind(id) {
            Some(DomNodeKind::Element(element)) => Some(element),
            _ => None,
        }
    }

    pub fn text(&self, id: NodeId) -> (r: Option<&str>)
        ensures
            r matches Some(t) ==> id@ < self.nodes_spec().len()
                && (self.nodes_spec()[id@ as int].kind matches DomNodeKind::Text(s) && s@ == t@),
            r.is_none() ==> id@ >= self.nodes_spec().len() || self.nodes_spec()[id@ as int].kind is Element,
    {
        match self.kind(id) {
            Some(DomNodeKind::Text(text)) => Some(text.as_str()),
            _ => None,
        }
    }

    pub fn add_element(
        &mut self,
        parent: Option<NodeId>,
        tag: &str,
        attrs: Vec<(String, String)>,
    ) -> (id: NodeId)
        requires
            old(self).wf(),
            parent matches Some(p) ==> p@ < old(self).nodes_spec().len(),
            old(self).nodes_spec().len() < usize::MAX,
        ensures
            final(self).wf(),
            id@ == old(self).nodes_spec().len(),
            final(self).nodes_spec().len() == old(self).nodes_spec().len() + 1,
            final(self).nodes_spec()[id@ as int].parent == parent,
            final(self).nodes_spec()[id@ as int].children@.len() == 0,
            final(self).nodes_spec()[id@ as int].kind matches DomNodeKind::Element(e) && e.tag@
                == tag@ && e.attrs@ == attrs@,
            forall|i: int|
                0 <= i < old(self).nodes_spec().len() ==> (#[trigger] final(self).nodes_spec()[i]).kind
                    == old(self).nodes_spec()[i].kind && final(self).nodes_spec()[i].parent
                    == old(self).nodes_spec()[i].parent,
            forall|i: int|
                0 <= i < old(self).nodes_spec().len() && opt_id(parent) != Some(i as nat)
                    ==> (#[trigger] final(self).nodes_spec()[i]).children@
                    == old(self).nodes_spec()[i].children@,
            parent matches Some(p) ==> final(self).nodes_spec()[p@ as int].children@
                == old(self).nodes_spec()[p@ as int].children@.push(id),
            parent is Some ==> final(self).roots_spec() == old(self).roots_spec(),
            parent is None ==> final(self).roots_spec() == old(self).roots_spec().push(id),
    {
        self.push_node(parent, DomNodeKind::Element(DomElement { tag: String::from_str(tag), attrs }))
    }

    pub fn add_text(&mut self, parent: Option<NodeId>, text: &str) -> (id: NodeId)
        requires
            old(self).wf(),
            parent matches Some(p) ==> p@ < old(self).nodes_spec().len(),
            old(self).nodes_spec().len() < usize::MAX,
        ensures
            final(self).wf(),
            id@ == old(self).nodes_spec().len(),
            final(self).nodes_spec().len() == old(self).nodes_spec().len() + 1,
            final(self).nodes_spec()[id@ as int].parent == parent,
            final(self).nodes_spec()[id@ as int].children@.len() == 0,
            final(self).nodes_spec()[id@ as int].kind matches DomNodeKind::Text(t) && t@ == text@,
            forall|i: int|
                0 <= i < old(self).nodes_spec().len() ==> (#[trigger] final(self).nodes_spec()[i]).kind
                    == old(self).nodes_spec()[i].kind && final(self).nodes_spec()[i].parent
                    == old(self).nodes_spec()[i].parent,
            forall|i: int|
                0 <= i < old(self).nodes_spec().len() && opt_id(parent) != Some(i as nat)
                    ==> (#[trigger] final(self).nodes_spec()[i]).children@
                    == old(self).nodes_spec()[i].children@,
            parent matches Some(p) ==> final(self).nodes_spec()[p@ as int].children@
                == old(self).nodes_spec()[p@ as int].children@.push(id),
            parent is Some ==> final(self).roots_spec() == old(self).roots_spec(),
            parent is None ==> final(self).roots_spec() == old(self).roots_spec().push(id),
    {
        self.push_node(parent, DomNodeKind::Text(String::from_str(text)))
    }


    /// Appends `node` and its descendants in pre-order under `parent`.
    fn push_browser_node(&mut self, parent: Option<NodeId>, node: &Node) -> (id: NodeId)
        requires
            old(self).wf(),
            parent matches Some(p) ==> p@ < old(self).nodes_spec().len(),
            old(self).nodes_spec().len() + node_size(node_view(*node)) < usize::MAX,
        ensures
            final(self).wf(),
            id@ == old(self).nodes_spec().len(),
            final(self).nodes_spec().len() == old(self).nodes_spec().len() + node_size(node_view(*node)),
            subtree(final(self).nodes_spec(), id@ as int) == node_view(*node),
            preorder_from(final(self).nodes_spec(), id@ as int) == id_range(id@, node_size(node_view(*node))),
            final(self).nodes_spec()[id@ as int].parent == parent,
            forall|i: int|
                0 <= i < old(self).nodes_spec().len() ==> (#[trigger] final(self).nodes_spec()[i]).kind
                    == old(self).nodes_spec()[i].kind && final(self).nodes_spec()[i].parent
                    == old(self).nodes_spec()[i].parent,
            forall|i: int|
                0 <= i < old(self).nodes_spec().len() && opt_id(parent) != Some(i as nat)
                    ==> (#[trigger] final(self).nodes_spec()[i]).children@
                    == old(self).nodes_spec()[i].children@,
            parent matches Some(p) ==> final(self).nodes_spec()[p@ as int].children@
                == old(self).nodes_spec()[p@ as int].children@.push(id),
            parent is Some ==> final(self).roots_spec() == old(self).roots_spec(),
            parent is None ==> final(self).roots_spec() == old(self).roots_spec().push(id),
        decreases node,
    {
        match node {
            Node::Element(element) => {
                proof {
                    lemma_nodes_view(element.children@);
                }
                let id = self.add_element(parent, element.tag.as_str(), clone_attrs(&element.attrs));
                let ghost mid = self.nodes@;
                let ghost mid_roots = self.roots@;
                let ghost kids = nodes_view(element.children@);
                assert(kids.take(0) =~= Seq::<NodeV>::empty());
                assert(subtrees(self.nodes@, id@ as int, self.nodes@[id@ as int].children@) =~= kids.take(0));
                assert(preorder_list(self.nodes@, id@ as int, self.nodes@[id@ as int].children@) =~= id_range(id@ + 1, 0));
                for i in 0..element.children.len()
                    invariant
                        self.wf(),
                        *node == Node::Element(*element),
                        kids == nodes_view(element.children@),
                        kids.len() == element.children@.len(),
                        node_size(node_view(*node)) == 1 + nodes_size(kids),
                        id@ == old(self).nodes_spec().len(),
                        old(self).nodes_spec().len() + node_size(node_view(*node)) < usize::MAX,
                        self.nodes@.len() == id@ + 1 + nodes_size(kids.take(i as int)),
                        mid.len() == id@ + 1,
                        self.nodes@[id@ as int].kind == mid[id@ as int].kind,
                        self.nodes@[id@ as int].parent == parent,
                        mid[id@ as int].kind matches DomNodeKind::Element(e) && e.tag@
                            == element.tag@ && e.attrs@ == element.attrs@,
                        subtrees(self.nodes@, id@ as int, self.nodes@[id@ as int].children@) == kids.take(i as int),
                        preorder_list(self.nodes@, id@ as int, self.nodes@[id@ as int].children@)
                            == id_range(id@ + 1, nodes_size(kids.take(i as int))),
                        forall|q: int|
                            0 <= q < id@ ==> (#[trigger] self.nodes@[q]).kind == mid[q].kind
                                && self.nodes@[q].parent == mid[q].parent && self.nodes@[q].children@
                                == mid[q].children@,
                        self.roots@ == mid_roots,
                {
                    proof {
                        assert(decreases_to!(*node => (*node)->Element_0));
                        assert(decreases_to!((*node)->Element_0 => (*node)->Element_0.children));
                        assert(decreases_to!((*node)->Element_0.children => (*node)->Element_0.children@));
                        assert(decreases_to!((*node)->Element_0.children@ => (*node)->Element_0.children@[i as int]));
                        lemma_nodes_size_take(kids, i as int);
                        lemma_nodes_size_take_le(kids, i + 1);
                        lemma_nodes_view(element.children@);
                        assert(kids[i as int] == node_view(element.children@[i as int]));
                        lemma_wf_kids_bounded(self.nodes@, self.roots@);
                    }
                    let ghost before = self.nodes@;
                    let ghost old_kids = self.nodes@[id@ as int].children@;
                    let cid = self.push_browser_node(Some(id), &element.children[i]);
                    proof {
                        let now = self.nodes@;
                        let new_kids = now[id@ as int].children@;
                        assert(new_kids == old_kids.push(cid));
                        assert(new_kids.drop_last() =~= old_kids);
                        assert(same_from(before, now, (id@ + 1) as int));
                        assert forall|k: int| 0 <= k < old_kids.len() implies id@ < (#[trigger] old_kids[k])@ < before.len() by {}
                        lemma_subtrees_index(before, id@ as int, old_kids);
                        lemma_subtrees_index(now, id@ as int, old_kids);
                        assert forall|k: int| 0 <= k < old_kids.len() implies #[trigger] subtrees(now, id@ as int, old_kids)[k]
                            == subtrees(before, id@ as int, old_kids)[k] by {
                            lemma_subtree_frame(before, now, (id@ + 1) as int, old_kids[k]@ as int);
                        }
                        assert(subtrees(now, id@ as int, old_kids) =~= subtrees(before, id@ as int, old_kids));
                        assert(kids.take(i + 1) =~= kids.take(i as int).push(kids[i as int]));
                        assert(subtrees(now, id@ as int, new_kids) =~= kids.take(i + 1));
                        lemma_preorder_list_frame(before, now, (id@ + 1) as int, id@ as int, old_kids);
                        assert(new_kids.last() == cid);
                        assert(preorder_list(now, id@ as int, new_kids)
                            == preorder_list(now, id@ as int, old_kids) + preorder_from(now, cid@ as int));
                        lemma_id_range_concat(id@ + 1, nodes_size(kids.take(i as int)), node_size(kids[i as int]));
                    }
                }
                proof {
                    assert(kids.take(element.children.len() as int) =~= kids);
                    let now = self.nodes@;
                    assert(preorder_from(now, id@ as int) == seq![id@] + preorder_list(now, id@ as int, now[id@ as int].children@));
                    assert(seq![id@] =~= id_range(id@, 1));
                    lemma_id_range_concat(id@, 1, nodes_size(kids));
                }
                id
            },
            Node::Text(text) => {
                let id = self.add_text(parent, text.as_str());
                proof {
                    let now = self.nodes@;
                    assert(now[id@ as int].children@ =~= Seq::<NodeId>::empty());
                    assert(preorder_from(now, id@ as int) =~= id_range(id@, 1));
                }
                id
            },
        }
    }

    /// Builds an arena holding `document`'s nodes in pre-order.
    pub fn from_document(document: &Document) -> (r: Self)
        requires
            nodes_size(document_view(*document)) < usize::MAX,
        ensures
            r.wf(),
            r.nodes_spec().len() == nodes_size(document_view(*document)),
            arena_document(r.nodes_spec(), r.roots_spec()) == document_view(*document),
            preorder_roots(r.nodes_spec(), r.roots_spec()) == id_range(0, r.nodes_spec().len()),
    {
        let mut arena = Self::new();
        assert(preorder_roots(arena.nodes@, arena.roots@) =~= id_range(0, 0));
        let ghost docv = document_view(*document);
        proof {
            lemma_nodes_view(document.children@);
        }
        assert(docv.take(0) =~= Seq::<NodeV>::empty());
        for i in 0..document.children.len()
            invariant
                arena.wf(),
                docv == document_view(*document),
                docv.len() == document.children@.len(),
                nodes_size(docv) < usize::MAX,
                arena.nodes@.len() == nodes_size(docv.take(i as int)),
                arena.roots@.len() == i,
                forall|j: int| 0 <= j < i ==> subtree(arena.nodes@, (#[trigger] arena.roots@[j])@ as int) == docv[j],
                preorder_roots(arena.nodes@, arena.roots@) == id_range(0, arena.nodes@.len()),
        {
            proof {
                lemma_nodes_size_take(docv, i as int);
                lemma_nodes_size_take_le(docv, i + 1);
                lemma_nodes_view(document.children@);
                assert(docv[i as int] == node_view(document.children@[i as int]));
                lemma_wf_kids_bounded(arena.nodes@, arena.roots@);
            }
            let ghost before = arena.nodes@;
            let ghost before_roots = arena.roots@;
            let _id = arena.push_browser_node(None, &document.children[i]);
            proof {
                let now = arena.nodes@;
                assert(same_from(before, now, 0));
                lemma_preorder_roots_frame(before, now, before_roots);
                assert(arena.roots@.drop_last() =~= before_roots);
                lemma_id_range_concat(0, before.len(), (now.len() - before.len()) as nat);
                assert forall|j: int| 0 <= j <= i implies subtree(now, (#[trigger] arena.roots@[j])@ as int) == docv[j] by {
                    if j < i {
                        assert(arena.roots@[j] == before_roots[j]);
                        lemma_subtree_frame(before, now, 0, before_roots[j]@ as int);
                    }
                }
            }
        }
        proof {
            assert(docv.take(document.children.len() as int) =~= docv);
            assert(arena_document(arena.nodes@, arena.roots@) =~= docv);
        }
        arena
    }

    /// Rebuilds the recursive node rooted at `id`.
    fn to_browser_node(&self, id: NodeId) -> (r: Node)
        requires
            self.wf(),
            id@ < self.nodes_spec().len(),
        ensures
            node_view(r) == subtree(self.nodes_spec(), id@ as int),
        decreases self.nodes_spec().len() - id@,
    {
        proof {
            lemma_wf_kids_bounded(self.nodes@, self.roots@);
        }
        let node = &self.nodes[id.0];
        match &node.kind {
            DomNodeKind::Element(element) => {
                let ghost ids = node.children@;
                let mut children: Vec<Node> = Vec::new();
                for i in 0..node.children.len()
                    invariant
                        self.wf(),
                        kids_bounded(self.nodes@, 0),
                        id@ < self.nodes@.len(),
                        *node == self.nodes@[id@ as int],
                        ids == node.children@,
                        children.len() == i,
                        i <= ids.len(),
                        forall|j: int| 0 <= j < i ==> node_view(#[trigger] children@[j]) == subtree(self.nodes@, ids[j]@ as int),
                {
                    let c = node.children[i];
                    assert(id@ < c@ < self.nodes@.len());
                    let child = self.to_browser_node(c);
                    children.push(child);
                }
                proof {
                    assert forall|k: int| 0 <= k < ids.len() implies id@ < (#[trigger] ids[k])@ < self.nodes@.len() by {}
                    lemma_subtrees_index(self.nodes@, id@ as int, ids);
                    lemma_nodes_view_ext(children@, subtrees(self.nodes@, id@ as int, ids));
                }
                Node::Element(Element {
                    tag: element.tag.clone(),
                    attrs: clone_attrs(&element.attrs),
                    children,
                })
            },
            DomNodeKind::Text(text) => Node::Text(text.clone()),
        }
    }

    /// Converts the arena back to a recursive document.
    pub fn to_document(&self) -> (r: Document)
        requires
            self.wf(),
        ensures
            document_view(r) == arena_document(self.nodes_spec(), self.roots_spec()),
    {
        proof {
            lemma_wf_kids_bounded(self.nodes@, self.roots@);
        }
        let mut children: Vec<Node> = Vec::new();
        for i in 0..self.roots.len()
            invariant
                self.wf(),
                children.len() == i,
                i <= self.roots@.len(),
                forall|k: int| 0 <= k < self.roots@.len() ==> (#[trigger] self.roots@[k])@ < self.nodes@.len(),
                forall|j: int| 0 <= j < i ==> node_view(#[trigger] children@[j]) == subtree(self.nodes@, self.roots@[j]@ as int),
        {
            let child = self.to_browser_node(self.roots[i]);
            children.push(child);
        }
        proof {
            lemma_nodes_view_ext(children@, arena_document(self.nodes@, self.roots@));
        }
        Document { children }
    }

    fn push_node(&mut self, parent: Option<NodeId>, kind: DomNodeKind) -> (id: NodeId)
        requires
            old(self).wf(),
            parent matches Some(p) ==> p@ < old(self).nodes_spec().len(),
            old(self).nodes_spec().len() < usize::MAX,
        ensures
            final(self).wf(),
            id@ == old(self).nodes_spec().len(),
            final(self).nodes_spec().len() == old(self).nodes_spec().len() + 1,
            final(self).nodes_spec()[id@ as int].parent == parent,
            final(self).nodes_spec()[id@ as int].children@.len() == 0,
            final(self).nodes_spec()[id@ as int].kind == kind,
            forall|i: int|
                0 <= i < old(self).nodes_spec().len() ==> (#[trigger] final(self).nodes_spec()[i]).kind
                    == old(self).nodes_spec()[i].kind && final(self).nodes_spec()[i].parent
                    == old(self).nodes_spec()[i].parent,
            forall|i: int|
                0 <= i < old(self).nodes_spec().len() && opt_id(parent) != Some(i as nat)
                    ==> (#[trigger] final(self).nodes_spec()[i]).children@
                    == old(self).nodes_spec()[i].children@,
            parent matches Some(p) ==> final(self).nodes_spec()[p@ as int].children@
                == old(self).nodes_spec()[p@ as int].children@.push(id),
            parent is Some ==> final(self).roots_spec() == old(self).roots_spec(),
            parent is None ==> final(self).roots_spec() == old(self).roots_spec().push(id),
    {
        let ghost old_nodes = self.nodes@;
        let n = self.nodes.len();
        let id = NodeId(n);
        self.nodes.push(ArenaNode { parent, children: Vec::new(), kind });
        match parent {
            Some(p) => {
                self.nodes[p.0].children.push(id);
            },
            None => {
                self.roots.push(id);
            },
        }
        proof {
            let nodes = self.nodes@;
            let pv: Option<nat> = match parent { Some(p) => Some(p@), None => None };
            assert(parent_of(nodes[n as int]) == pv);
            assert forall|q: Option<nat>| true implies ids_with_parent(nodes, q, n as int)
                == ids_with_parent(old_nodes, q, n as int) by {
                lemma_ids_with_parent_prefix(nodes, old_nodes, q, n as int);
            }
            assert forall|i: int| 0 <= i < nodes.len() implies ids_view(#[trigger] nodes[i].children@)
                == ids_with_parent(nodes, Some(i as nat), nodes.len() as int) by {
                assert(ids_with_parent(nodes, Some(i as nat), n as int) == ids_with_parent(old_nodes, Some(i as nat), n as int));
                if i == n {
                    lemma_ids_with_parent_bounds(old_nodes, Some(n as nat), n as int);
                    let e = ids_with_parent(old_nodes, Some(n as nat), n as int);
                    if e.len() > 0 {
                        let c = e[0];
                        assert(parent_of(old_nodes[c as int]) == Some(n as nat));
                        assert(false);
                    }
                    assert(e =~= Seq::<nat>::empty());
                    assert(ids_view(nodes[i].children@) =~= Seq::<nat>::empty());
                } else if opt_id(parent) == Some(i as nat) {
                    assert(ids_view(nodes[i].children@) =~= ids_view(old_nodes[i].children@).push(n as nat));
                } else {
                    assert(ids_view(nodes[i].children@) =~= ids_view(old_nodes[i].children@));
                }
            }
            assert(ids_with_parent(nodes, None, n as int) == ids_with_parent(old_nodes, None, n as int));
            assert forall|i: int| 0 <= i < nodes.len() implies (#[trigger] parent_of(nodes[i]) matches Some(q) ==> q < i) by {
                if i < n {
                    assert(parent_of(old_nodes[i]) == parent_of(nodes[i]));
                }
            }
            if parent is None {
                assert(ids_view(self.roots@) =~= ids_view(old(self).roots@).push(n as nat));
            } else {
                assert(ids_view(self.roots@) =~= ids_view(old(self).roots@));
            }
        }
        id
    }
}

} // verus!

verus! {

// ---------------------------------------------------------------------------
// Selector queries.

/// Whether an element with `tag` and `attrs` passes one simple test; tag
/// names compare without regard to ASCII case.
pub open spec fn simple_holds(tag: Seq<char>, attrs: Seq<PairV>, t: SimpleV) -> bool {
    match t {
        SimpleV::Tag(n) => lower(tag) == lower(n),
        SimpleV::Id(v) => attr_get(attrs, "id"@) == Some(v),
        SimpleV::Class(c) => match attr_get(attrs, "class"@) {
            Some(cl) => has_word(cl, c),
            None => false,
        },
        SimpleV::Has(n) => attr_get(attrs, n) is Some,
        SimpleV::Equals(n, v) => attr_get(attrs, n) == Some(v),
    }
}

/// Whether a node passes every test of a compound; text nodes pass none.
pub open spec fn compound_holds(k: DomNodeKind, c: Seq<SimpleV>) -> bool {
    match k {
        DomNodeKind::Element(e) => forall|i: int| 0 <= i < c.len() ==> simple_holds(e.tag@, attrs_view(e.attrs@), #[trigger] c[i]),
        DomNodeKind::Text(_) => false,
    }
}

pub open spec fn rest_flags(child: Seq<bool>) -> Seq<bool> {
    if child.len() > 0 { child.drop_last() } else { child }
}

/// Whether node `id` matches the complex selector `parts`/`child`: it
/// passes the last compound, and its parent (for `>`) or some ancestor
/// (for whitespace) matches the rest.
pub open spec fn complex_holds(nodes: Seq<ArenaNode>, parts: Seq<Seq<SimpleV>>, child: Seq<bool>, id: int) -> bool
    decreases parts.len(), id, 0int,
{
    if parts.len() == 0 || id < 0 || id >= nodes.len() {
        false
    } else if !compound_holds(nodes[id].kind, parts.last()) {
        false
    } else if parts.len() == 1 {
        true
    } else {
        match parent_of(nodes[id]) {
            None => false,
            Some(p) => if p as int >= id {
                false
            } else if child.len() > 0 && child.last() {
                complex_holds(nodes, parts.drop_last(), rest_flags(child), p as int)
            } else {
                ancestor_holds(nodes, parts.drop_last(), rest_flags(child), p as int)
            },
        }
    }
}

/// Whether `a` or one of its ancestors matches the complex selector.
pub open spec fn ancestor_holds(nodes: Seq<ArenaNode>, parts: Seq<Seq<SimpleV>>, child: Seq<bool>, a: int) -> bool
    decreases parts.len(), a, 1int,
{
    if a < 0 || a >= nodes.len() {
        false
    } else if complex_holds(nodes, parts, child, a) {
        true
    } else {
        match parent_of(nodes[a]) {
            Some(p) => (p as int) < a && ancestor_holds(nodes, parts, child, p as int),
            None => false,
        }
    }
}

/// Whether node `id` matches some selector of the list.
pub open spec fn selector_holds(nodes: Seq<ArenaNode>, groups: Seq<ComplexV>, id: int) -> bool {
    exists|g: int| 0 <= g < groups.len() && complex_holds(nodes, (#[trigger] groups[g]).parts, groups[g].child, id)
}

/// Ids of the subtree at `id` in document (pre-)order.
pub open spec fn preorder_from(nodes: Seq<ArenaNode>, id: int) -> Seq<nat>
    decreases nodes.len() - id, 1int, 0int,
{
    if id < 0 || id >= nodes.len() {
        Seq::empty()
    } else {
        seq![id as nat] + preorder_list(nodes, id, nodes[id].children@)
    }
}

pub open spec fn preorder_list(nodes: Seq<ArenaNode>, id: int, ids: Seq<NodeId>) -> Seq<nat>
    decreases nodes.len() - id, 0int, ids.len(),
{
    if ids.len() == 0 {
        Seq::empty()
    } else {
        let c = ids.last()@ as int;
        preorder_list(nodes, id, ids.drop_last()) + if id < c && c < nodes.len() {
            preorder_from(nodes, c)
        } else {
            Seq::empty()
        }
    }
}

/// All ids in document order.
pub open spec fn preorder_roots(nodes: Seq<ArenaNode>, roots: Seq<NodeId>) -> Seq<nat>
    decreases roots.len(),
{
    if roots.len() == 0 {
        Seq::empty()
    } else {
        preorder_roots(nodes, roots.drop_last()) + preorder_from(nodes, roots.last()@ as int)
    }
}

/// Whether arena node `x` is unclaimed and equal, as a tree, to `m`.
pub open spec fn fits(nodes: Seq<ArenaNode>, claimed: Seq<bool>, x: nat, m: NodeV) -> bool {
    x < claimed.len() && !claimed[x as int] && subtree(nodes, x as int) == m
}

/// The first id in `order` that fits `m`.
pub open spec fn first_fit(nodes: Seq<ArenaNode>, order: Seq<nat>, claimed: Seq<bool>, m: NodeV) -> Option<nat>
    decreases order.len(),
{
    if order.len() == 0 {
        None
    } else if fits(nodes, claimed, order[0], m) {
        Some(order[0])
    } else {
        first_fit(nodes, order.drop_first(), claimed, m)
    }
}

/// Each matched tree in turn claims the first unclaimed equal node.
pub open spec fn claim_all(nodes: Seq<ArenaNode>, order: Seq<nat>, claimed: Seq<bool>, ms: Seq<NodeV>) -> Seq<nat>
    decreases ms.len(),
{
    if ms.len() == 0 {
        Seq::empty()
    } else {
        match first_fit(nodes, order, claimed, ms[0]) {
            Some(x) => seq![x] + claim_all(nodes, order, claimed.update(x as int, true), ms.drop_first()),
            None => claim_all(nodes, order, claimed, ms.drop_first()),
        }
    }
}

/// What `query_selector` returns: the nodes that match, in document order,
/// each mapped to the first not yet claimed node with an equal subtree.
pub open spec fn query_spec(nodes: Seq<ArenaNode>, roots: Seq<NodeId>, sel: Seq<char>) -> Seq<nat> {
    match parse_selector(sel) {
        None => Seq::empty(),
        Some(groups) => {
            let order = preorder_roots(nodes, roots);
            let hits = order.filter(|x: nat| selector_holds(nodes, groups, x as int));
            claim_all(
                nodes,
                order,
                Seq::new(nodes.len(), |i: int| false),
                hits.map(|i: int, x: nat| subtree(nodes, x as int)),
            )
        },
    }
}

proof fn lemma_first_fit_concat(nodes: Seq<ArenaNode>, a: Seq<nat>, b: Seq<nat>, claimed: Seq<bool>, m: NodeV)
    ensures
        first_fit(nodes, a + b, claimed, m) == match first_fit(nodes, a, claimed, m) {
            Some(x) => Some(x),
            None => first_fit(nodes, b, claimed, m),
        },
    decreases a.len(),
{
    if a.len() == 0 {
        assert(a + b =~= b);
    } else {
        assert((a + b)[0] == a[0]);
        assert((a + b).drop_first() =~= a.drop_first() + b);
        lemma_first_fit_concat(nodes, a.drop_first(), b, claimed, m);
    }
}

proof fn lemma_first_fit_fits(nodes: Seq<ArenaNode>, order: Seq<nat>, claimed: Seq<bool>, m: NodeV)
    ensures
        first_fit(nodes, order, claimed, m) matches Some(x) ==> fits(nodes, claimed, x, m),
    decreases order.len(),
{
    if order.len() > 0 && !fits(nodes, claimed, order[0], m) {
        lemma_first_fit_fits(nodes, order.drop_first(), claimed, m);
    }
}

proof fn lemma_preorder_bounds(nodes: Seq<ArenaNode>, id: int)
    ensures
        forall|k: int| 0 <= k < preorder_from(nodes, id).len() ==> #[trigger] preorder_from(nodes, id)[k] < nodes.len(),
    decreases nodes.len() - id, 1int, 0int,
{
    if 0 <= id < nodes.len() {
        let rest = preorder_list(nodes, id, nodes[id].children@);
        lemma_preorder_list_bounds(nodes, id, nodes[id].children@);
        assert forall|k: int| 0 <= k < preorder_from(nodes, id).len() implies #[trigger] preorder_from(nodes, id)[k] < nodes.len() by {
            if k > 0 {
                assert(preorder_from(nodes, id)[k] == rest[k - 1]);
            }
        }
    }
}

proof fn lemma_preorder_list_bounds(nodes: Seq<ArenaNode>, id: int, ids: Seq<NodeId>)
    ensures
        forall|k: int| 0 <= k < preorder_list(nodes, id, ids).len() ==> #[trigger] preorder_list(nodes, id, ids)[k] < nodes.len(),
    decreases nodes.len() - id, 0int, ids.len(),
{
    if ids.len() > 0 {
        lemma_preorder_list_bounds(nodes, id, ids.drop_last());
        let c = ids.last()@ as int;
        let a = preorder_list(nodes, id, ids.drop_last());
        let b: Seq<nat> = if id < c && c < nodes.len() { preorder_from(nodes, c) } else { Seq::empty() };
        if id < c && c < nodes.len() {
            lemma_preorder_bounds(nodes, c);
        }
        assert forall|k: int| 0 <= k < preorder_list(nodes, id, ids).len() implies #[trigger] preorder_list(nodes, id, ids)[k] < nodes.len() by {
            if k < a.len() {
                assert(preorder_list(nodes, id, ids)[k] == a[k]);
            } else {
                assert(preorder_list(nodes, id, ids)[k] == b[k - a.len()]);
            }
        }
    }
}

proof fn lemma_preorder_roots_bounds(nodes: Seq<ArenaNode>, roots: Seq<NodeId>)
    ensures
        forall|k: int| 0 <= k < preorder_roots(nodes, roots).len() ==> #[trigger] preorder_roots(nodes, roots)[k] < nodes.len(),
    decreases roots.len(),
{
    if roots.len() > 0 {
        lemma_preorder_roots_bounds(nodes, roots.drop_last());
        lemma_preorder_bounds(nodes, roots.last()@ as int);
        let a = preorder_roots(nodes, roots.drop_last());
        let b = preorder_from(nodes, roots.last()@ as int);
        assert forall|k: int| 0 <= k < preorder_roots(nodes, roots).len() implies #[trigger] preorder_roots(nodes, roots)[k] < nodes.len() by {
            if k < a.len() {
                assert(preorder_roots(nodes, roots)[k] == a[k]);
            } else {
                assert(preorder_roots(nodes, roots)[k] == b[k - a.len()]);
            }
        }
    }
}

proof fn lemma_preorder_list_step(nodes: Seq<ArenaNode>, id: int, ids: Seq<NodeId>, k: int)
    requires
        0 <= k < ids.len(),
        id < ids[k]@ < nodes.len(),
    ensures
        preorder_list(nodes, id, ids.take(k + 1)) == preorder_list(nodes, id, ids.take(k)) + preorder_from(nodes, ids[k]@ as int),
{
    assert(ids.take(k + 1).drop_last() =~= ids.take(k));
}

/// Where the search finds a node in a prefix of the children, the whole
/// child list gives the same.
proof fn lemma_preorder_list_prefix(nodes: Seq<ArenaNode>, id: int, ids: Seq<NodeId>, k: int, claimed: Seq<bool>, m: NodeV)
    requires
        0 <= k <= ids.len(),
        first_fit(nodes, preorder_list(nodes, id, ids.take(k)), claimed, m) is Some,
    ensures
        first_fit(nodes, preorder_list(nodes, id, ids), claimed, m) == first_fit(nodes, preorder_list(nodes, id, ids.take(k)), claimed, m),
    decreases ids.len() - k,
{
    if k == ids.len() {
        assert(ids.take(k) =~= ids);
    } else {
        let c = ids[k]@ as int;
        assert(ids.take(k + 1).drop_last() =~= ids.take(k));
        let extra: Seq<nat> = if id < c && c < nodes.len() { preorder_from(nodes, c) } else { Seq::empty() };
        assert(preorder_list(nodes, id, ids.take(k + 1)) == preorder_list(nodes, id, ids.take(k)) + extra);
        lemma_first_fit_concat(nodes, preorder_list(nodes, id, ids.take(k)), extra, claimed, m);
        lemma_preorder_list_prefix(nodes, id, ids, k + 1, claimed, m);
    }
}

proof fn lemma_preorder_roots_prefix(nodes: Seq<ArenaNode>, roots: Seq<NodeId>, k: int, claimed: Seq<bool>, m: NodeV)
    requires
        0 <= k <= roots.len(),
        first_fit(nodes, preorder_roots(nodes, roots.take(k)), claimed, m) is Some,
    ensures
        first_fit(nodes, preorder_roots(nodes, roots), claimed, m) == first_fit(nodes, preorder_roots(nodes, roots.take(k)), claimed, m),
    decreases roots.len() - k,
{
    if k == roots.len() {
        assert(roots.take(k) =~= roots);
    } else {
        assert(roots.take(k + 1).drop_last() =~= roots.take(k));
        lemma_first_fit_concat(nodes, preorder_roots(nodes, roots.take(k)), preorder_from(nodes, roots[k]@ as int), claimed, m);
        lemma_preorder_roots_prefix(nodes, roots, k + 1, claimed, m);
    }
}

fn attrs_eq(a: &Vec<(String, String)>, b: &Vec<(String, String)>) -> (r: bool)
    ensures
        r == (attrs_view(a@) == attrs_view(b@)),
{
    if a.len() != b.len() {
        assert(attrs_view(a@).len() != attrs_view(b@).len());
        return false;
    }
    for i in 0..a.len()
        invariant
            a@.len() == b@.len(),
            forall|j: int| 0 <= j < i ==> attrs_view(a@)[j] == attrs_view(b@)[j],
    {
        if !(a[i].0 == b[i].0) || !(a[i].1 == b[i].1) {
            assert(attrs_view(a@)[i as int] != attrs_view(b@)[i as int]);
            return false;
        }
    }
    assert(attrs_view(a@) =~= attrs_view(b@));
    true
}

fn simple_holds_exec(el: &DomElement, t: &Simple) -> (r: bool)
    ensures
        r == simple_holds(el.tag@, attrs_view(el.attrs@), simple_view(*t)),
{
    match t {
        Simple::Tag(n) => to_ascii_lowercase(el.tag.as_str()) == to_ascii_lowercase(n.as_str()),
        Simple::Id(v) => match get_attr(&el.attrs, "id") {
            Some(x) => x == *v,
            None => false,
        },
        Simple::Class(c) => match get_attr(&el.attrs, "class") {
            Some(cl) => has_word_exec(cl.as_str(), c.as_str()),
            None => false,
        },
        Simple::Has(n) => get_attr(&el.attrs, n.as_str()).is_some(),
        Simple::Equals(n, v) => match get_attr(&el.attrs, n.as_str()) {
            Some(x) => x == *v,
            None => false,
        },
    }
}

impl DomArena {
    fn compound_holds_exec(&self, id: usize, c: &Vec<Simple>) -> (r: bool)
        requires
            id < self.nodes@.len(),
        ensures
            r == compound_holds(self.nodes@[id as int].kind, compound_view(c@)),
    {
        match &self.nodes[id].kind {
            DomNodeKind::Element(el) => {
                for i in 0..c.len()
                    invariant
                        id < self.nodes@.len(),
                        self.nodes@[id as int].kind == DomNodeKind::Element(*el),
                        forall|j: int| 0 <= j < i ==> simple_holds(el.tag@, attrs_view(el.attrs@), #[trigger] compound_view(c@)[j]),
                {
                    assert(compound_view(c@)[i as int] == simple_view(c@[i as int]));
                    if !simple_holds_exec(el, &c[i]) {
                        return false;
                    }
                }
                true
            },
            DomNodeKind::Text(_) => false,
        }
    }

    fn complex_holds_exec(&self, parts: &Vec<Vec<Simple>>, child: &Vec<bool>, n: usize, m: usize, id: usize) -> (r: bool)
        requires
            n <= parts@.len(),
            m <= child@.len(),
        ensures
            r == complex_holds(self.nodes@, parts@.map(|i: int, p: Vec<Simple>| compound_view(p@)).take(n as int), child@.take(m as int), id as int),
        decreases n, id, 0int,
    {
        let ghost pv = parts@.map(|i: int, p: Vec<Simple>| compound_view(p@)).take(n as int);
        let ghost cv = child@.take(m as int);
        if n == 0 || id >= self.nodes.len() {
            return false;
        }
        assert(pv.last() == compound_view(parts@[n - 1]@));
        if !self.compound_holds_exec(id, &parts[n - 1]) {
            return false;
        }
        if n == 1 {
            return true;
        }
        assert(pv.drop_last() =~= parts@.map(|i: int, p: Vec<Simple>| compound_view(p@)).take(n - 1));
        let m2: usize = if m > 0 { m - 1 } else { 0 };
        assert(rest_flags(cv) =~= child@.take(m2 as int));
        match self.nodes[id].parent {
            None => false,
            Some(p) => {
                if p.0 >= id {
                    false
                } else if m > 0 && child[m - 1] {
                    self.complex_holds_exec(parts, child, n - 1, m2, p.0)
                } else {
                    self.ancestor_holds_exec(parts, child, n - 1, m2, p.0)
                }
            },
        }
    }

    fn ancestor_holds_exec(&self, parts: &Vec<Vec<Simple>>, child: &Vec<bool>, n: usize, m: usize, a: usize) -> (r: bool)
        requires
            n <= parts@.len(),
            m <= child@.len(),
        ensures
            r == ancestor_holds(self.nodes@, parts@.map(|i: int, p: Vec<Simple>| compound_view(p@)).take(n as int), child@.take(m as int), a as int),
        decreases n, a, 1int,
    {
        if a >= self.nodes.len() {
            return false;
        }
        if self.complex_holds_exec(parts, child, n, m, a) {
            return true;
        }
        match self.nodes[a].parent {
            Some(p) => p.0 < a && self.ancestor_holds_exec(parts, child, n, m, p.0),
            None => false,
        }
    }

    fn selector_holds_exec(&self, groups: &Vec<Complex>, id: usize) -> (r: bool)
        ensures
            r == selector_holds(self.nodes@, complexes_view(groups@), id as int),
    {
        for g in 0..groups.len()
            invariant
                forall|j: int| 0 <= j < g ==> !complex_holds(self.nodes@, complexes_view(groups@)[j].parts, complexes_view(groups@)[j].child, id as int),
        {
            let c = &groups[g];
            let ghost cv = complex_view(*c);
            assert(complexes_view(groups@)[g as int] == cv);
            assert(cv.parts.take(c.parts@.len() as int) =~= cv.parts);
            assert(cv.child.take(c.child@.len() as int) =~= cv.child);
            if self.complex_holds_exec(&c.parts, &c.child, c.parts.len(), c.child.len(), id) {
                return true;
            }
        }
        false
    }

    /// Appends the ids of the subtree at `id` in document order.
    fn collect_preorder(&self, id: NodeId, out: &mut Vec<NodeId>)
        requires
            self.wf(),
            id@ < self.nodes_spec().len(),
        ensures
            ids_view(final(out)@) == ids_view(old(out)@) + preorder_from(self.nodes_spec(), id@ as int),
        decreases self.nodes_spec().len() - id@,
    {
        proof {
            lemma_wf_kids_bounded(self.nodes@, self.roots@);
        }
        let ghost start = ids_view(out@);
        out.push(id);
        assert(ids_view(out@) =~= start.push(id@));
        let node = &self.nodes[id.0];
        let ghost ids = node.children@;
        for i in 0..node.children.len()
            invariant
                self.wf(),
                kids_bounded(self.nodes@, 0),
                id@ < self.nodes@.len(),
                *node == self.nodes@[id@ as int],
                ids == node.children@,
                ids_view(out@) == start + seq![id@] + preorder_list(self.nodes@, id@ as int, ids.take(i as int)),
        {
            let c = node.children[i];
            assert(id@ < c@ < self.nodes@.len());
            self.collect_preorder(c, out);
            proof {
                lemma_preorder_list_step(self.nodes@, id@ as int, ids, i as int);
            }
            assert(ids_view(out@) =~= start + seq![id@] + preorder_list(self.nodes@, id@ as int, ids.take(i + 1)));
        }
        assert(ids.take(ids.len() as int) =~= ids);
        assert(start + seq![id@] + preorder_list(self.nodes@, id@ as int, ids) =~= start + preorder_from(self.nodes@, id@ as int));
    }

    /// Whether the subtree at `id` equals `other`.
    fn browser_node_eq(&self, id: NodeId, other: &Node) -> (r: bool)
        requires
            self.wf(),
            id@ < self.nodes_spec().len(),
        ensures
            r == (subtree(self.nodes_spec(), id@ as int) == node_view(*other)),
        decreases self.nodes_spec().len() - id@,
    {
        proof {
            lemma_wf_kids_bounded(self.nodes@, self.roots@);
        }
        let node = &self.nodes[id.0];
        match (&node.kind, other) {
            (DomNodeKind::Text(left), Node::Text(right)) => *left == *right,
            (DomNodeKind::Element(left), Node::Element(right)) => {
                let ghost ids = node.children@;
                proof {
                    assert forall|k: int| 0 <= k < ids.len() implies id@ < (#[trigger] ids[k])@ < self.nodes@.len() by {}
                    lemma_subtrees_index(self.nodes@, id@ as int, ids);
                    lemma_nodes_view(right.children@);
                }
                let ghost sv = subtrees(self.nodes@, id@ as int, ids);
                let ghost ov = nodes_view(right.children@);
                let ghost whole = subtree(self.nodes@, id@ as int);
                assert(whole == NodeV::Element { tag: left.tag@, attrs: attrs_view(left.attrs@), children: sv });
                assert(node_view(*other) == NodeV::Element { tag: right.tag@, attrs: attrs_view(right.attrs@), children: ov });
                if !(left.tag == right.tag) {
                    return false;
                }
                if !attrs_eq(&left.attrs, &right.attrs) {
                    return false;
                }
                if node.children.len() != right.children.len() {
                    assert(sv.len() != ov.len());
                    return false;
                }
                for i in 0..node.children.len()
                    invariant
                        self.wf(),
                        kids_bounded(self.nodes@, 0),
                        id@ < self.nodes@.len(),
                        *node == self.nodes@[id@ as int],
                        *other == Node::Element(*right),
                        ids == node.children@,
                        ids.len() == right.children@.len(),
                        sv.len() == ids.len(),
                        ov.len() == ids.len(),
                        forall|k: int| 0 <= k < ids.len() ==> #[trigger] sv[k] == subtree(self.nodes@, ids[k]@ as int),
                        forall|k: int| 0 <= k < ids.len() ==> #[trigger] ov[k] == node_view(right.children@[k]),
                        forall|k: int| 0 <= k < i ==> sv[k] == ov[k],
                        whole == subtree(self.nodes@, id@ as int),
                        whole == (NodeV::Element { tag: left.tag@, attrs: attrs_view(left.attrs@), children: sv }),
                        node_view(*other) == (NodeV::Element { tag: right.tag@, attrs: attrs_view(right.attrs@), children: ov }),
                {
                    proof {
                        assert(decreases_to!(*other => (*other)->Element_0));
                        assert(decreases_to!((*other)->Element_0 => (*other)->Element_0.children));
                        assert(decreases_to!((*other)->Element_0.children => (*other)->Element_0.children@));
                        assert(decreases_to!((*other)->Element_0.children@ => (*other)->Element_0.children@[i as int]));
                    }
                    let c = node.children[i];
                    assert(id@ < c@ < self.nodes@.len());
                    if !self.browser_node_eq(c, &right.children[i]) {
                        assert(sv[i as int] != ov[i as int]);
                        return false;
                    }
                }
                assert(sv =~= ov);
                true
            },
            _ => false,
        }
    }

    /// Claims the first unclaimed node in the subtree at `id` (document
    /// order) that equals `matched`.
    fn find_unclaimed_from(&self, id: NodeId, matched: &Node, claimed: &mut Vec<bool>) -> (r: Option<NodeId>)
        requires
            self.wf(),
            id@ < self.nodes_spec().len(),
            old(claimed)@.len() == self.nodes_spec().len(),
        ensures
            opt_id(r) == first_fit(self.nodes_spec(), preorder_from(self.nodes_spec(), id@ as int), old(claimed)@, node_view(*matched)),
            final(claimed)@ == match r {
                Some(x) => old(claimed)@.update(x@ as int, true),
                None => old(claimed)@,
            },
            r matches Some(x) ==> x@ < self.nodes_spec().len(),
        decreases self.nodes_spec().len() - id@,
    {
        proof {
            lemma_wf_kids_bounded(self.nodes@, self.roots@);
        }
        let ghost m = node_view(*matched);
        let ghost order = preorder_from(self.nodes@, id@ as int);
        let ghost ids = self.nodes@[id@ as int].children@;
        let ghost rest = preorder_list(self.nodes@, id@ as int, ids);
        assert(order == seq![id@] + rest);
        assert(order[0] == id@);
        assert(order.drop_first() =~= rest);
        if !claimed[id.0] && self.browser_node_eq(id, matched) {
            claimed.set(id.0, true);
            return Some(id);
        }
        proof {
            lemma_first_fit_fits(self.nodes@, order, claimed@, m);
        }
        assert(!fits(self.nodes@, claimed@, id@, m));
        let node = &self.nodes[id.0];
        assert(ids.take(0) =~= Seq::<NodeId>::empty());
        for i in 0..node.children.len()
            invariant
                self.wf(),
                kids_bounded(self.nodes@, 0),
                id@ < self.nodes@.len(),
                *node == self.nodes@[id@ as int],
                ids == node.children@,
                claimed@ == old(claimed)@,
                claimed@.len() == self.nodes@.len(),
                m == node_view(*matched),
                order == preorder_from(self.nodes@, id@ as int),
                first_fit(self.nodes@, preorder_list(self.nodes@, id@ as int, ids.take(i as int)), claimed@, m) is None,
                first_fit(self.nodes@, order, claimed@, m) == first_fit(self.nodes@, rest, claimed@, m),
                rest == preorder_list(self.nodes@, id@ as int, ids),
        {
            let c = node.children[i];
            assert(id@ < c@ < self.nodes@.len());
            let ghost before = claimed@;
            let found = self.find_unclaimed_from(c, matched, claimed);
            proof {
                lemma_preorder_list_step(self.nodes@, id@ as int, ids, i as int);
                lemma_first_fit_concat(
                    self.nodes@,
                    preorder_list(self.nodes@, id@ as int, ids.take(i as int)),
                    preorder_from(self.nodes@, c@ as int),
                    before,
                    m,
                );
            }
            match found {
                Some(x) => {
                    proof {
                        lemma_preorder_list_prefix(self.nodes@, id@ as int, ids, i + 1, before, m);
                        assert(first_fit(self.nodes@, rest, before, m) == Some(x@));
                        assert(first_fit(self.nodes@, order, before, m) == Some(x@));
                    }
                    return Some(x);
                },
                None => {},
            }
        }
        assert(ids.take(ids.len() as int) =~= ids);
        None
    }

    /// Claims the first unclaimed node of the arena (document order) that
    /// equals `matched`.
    fn find_unclaimed_browser_node(&self, matched: &Node, claimed: &mut Vec<bool>) -> (r: Option<NodeId>)
        requires
            self.wf(),
            old(claimed)@.len() == self.nodes_spec().len(),
        ensures
            opt_id(r) == first_fit(self.nodes_spec(), preorder_roots(self.nodes_spec(), self.roots_spec()), old(claimed)@, node_view(*matched)),
            final(claimed)@ == match r {
                Some(x) => old(claimed)@.update(x@ as int, true),
                None => old(claimed)@,
            },
            r matches Some(x) ==> x@ < self.nodes_spec().len(),
    {
        proof {
            lemma_wf_kids_bounded(self.nodes@, self.roots@);
        }
        let ghost m = node_view(*matched);
        let ghost roots = self.roots@;
        assert(roots.take(0) =~= Seq::<NodeId>::empty());
        for i in 0..self.roots.len()
            invariant
                self.wf(),
                roots == self.roots@,
                forall|k: int| 0 <= k < roots.len() ==> (#[trigger] roots[k])@ < self.nodes@.len(),
                claimed@ == old(claimed)@,
                claimed@.len() == self.nodes@.len(),
                m == node_view(*matched),
                first_fit(self.nodes@, preorder_roots(self.nodes@, roots.take(i as int)), claimed@, m) is None,
        {
            let ghost before = claimed@;
            let found = self.find_unclaimed_from(self.roots[i], matched, claimed);
            proof {
                assert(roots.take(i + 1).drop_last() =~= roots.take(i as int));
                lemma_first_fit_concat(
                    self.nodes@,
                    preorder_roots(self.nodes@, roots.take(i as int)),
                    preorder_from(self.nodes@, roots[i as int]@ as int),
                    before,
                    m,
                );
            }
            match found {
                Some(x) => {
                    proof {
                        lemma_preorder_roots_prefix(self.nodes@, roots, i + 1, before, m);
                    }
                    return Some(x);
                },
                None => {},
            }
        }
        assert(roots.take(roots.len() as int) =~= roots);
        None
    }

    /// The nodes that match a CSS selector, in document order. Matching
    /// runs on the document the arena stands for; each matched tree is then
    /// mapped to the first not yet claimed arena node with an equal subtree,
    /// so identical duplicate subtrees are handed out in document order. A
    /// malformed selector matches nothing.
    pub fn query_selector(&self, selector: &str) -> (r: Vec<NodeId>)
        requires
            self.wf(),
        ensures
            ids_view(r@) == query_spec(self.nodes_spec(), self.roots_spec(), selector@),
    {
        proof {
            lemma_wf_kids_bounded(self.nodes@, self.roots@);
        }
        let groups = match parse_selector_exec(selector) {
            Some(g) => g,
            None => {
                let e: Vec<NodeId> = Vec::new();
                assert(ids_view(e@) =~= Seq::<nat>::empty());
                return e;
            },
        };
        let ghost gv = complexes_view(groups@);
        let ghost nodes = self.nodes@;
        // Document order of all nodes.
        let mut order: Vec<NodeId> = Vec::new();
        let ghost roots = self.roots@;
        assert(roots.take(0) =~= Seq::<NodeId>::empty());
        assert(ids_view(order@) =~= Seq::<nat>::empty());
        for i in 0..self.roots.len()
            invariant
                self.wf(),
                roots == self.roots@,
                forall|k: int| 0 <= k < roots.len() ==> (#[trigger] roots[k])@ < self.nodes@.len(),
                ids_view(order@) == preorder_roots(self.nodes@, roots.take(i as int)),
        {
            self.collect_preorder(self.roots[i], &mut order);
            assert(roots.take(i + 1).drop_last() =~= roots.take(i as int));
        }
        assert(roots.take(roots.len() as int) =~= roots);
        let ghost ov = ids_view(order@);
        proof {
            lemma_preorder_roots_bounds(nodes, roots);
        }
        let ghost pred = |x: nat| selector_holds(nodes, gv, x as int);
        // The matching nodes.
        let mut hits: Vec<NodeId> = Vec::new();
        assert(ids_view(hits@) =~= Seq::<nat>::empty());
        assert(ov.take(0) =~= Seq::<nat>::empty());
        for i in 0..order.len()
            invariant
                nodes == self.nodes@,
                gv == complexes_view(groups@),
                ov == ids_view(order@),
                pred == (|x: nat| selector_holds(nodes, gv, x as int)),
                ids_view(hits@) == ov.take(i as int).filter(pred),
                forall|k: int| 0 <= k < hits@.len() ==> (#[trigger] hits@[k])@ < nodes.len(),
                forall|k: int| 0 <= k < ov.len() ==> #[trigger] ov[k] < nodes.len(),
        {
            let x = order[i];
            proof {
                ov.take(i as int).lemma_filter_push(ov[i as int], pred);
                assert(ov.take(i + 1) =~= ov.take(i as int).push(ov[i as int]));
            }
            if self.selector_holds_exec(&groups, x.0) {
                let ghost before = hits@;
                hits.push(x);
                assert(ids_view(hits@) =~= ids_view(before).push(x@));
            }
        }
        assert(ov.take(ov.len() as int) =~= ov);
        let ghost hv = ids_view(hits@);
        let ghost ms = hv.map(|i: int, x: nat| subtree(nodes, x as int));
        // Map each matched tree to its arena node.
        let mut claimed: Vec<bool> = Vec::new();
        for i in 0..self.nodes.len()
            invariant
                claimed@ == Seq::new(i as nat, |j: int| false),
        {
            claimed.push(false);
            assert(claimed@ =~= Seq::new((i + 1) as nat, |j: int| false));
        }
        let ghost start = claimed@;
        let mut out: Vec<NodeId> = Vec::new();
        assert(ids_view(out@) =~= Seq::<nat>::empty());
        assert(ms.skip(0) =~= ms);
        for k in 0..hits.len()
            invariant
                self.wf(),
                nodes == self.nodes@,
                hv == ids_view(hits@),
                ms == hv.map(|i: int, x: nat| subtree(nodes, x as int)),
                forall|j: int| 0 <= j < hits@.len() ==> (#[trigger] hits@[j])@ < nodes.len(),
                claimed@.len() == nodes.len(),
                ids_view(out@) + claim_all(nodes, ov, claimed@, ms.skip(k as int)) == claim_all(nodes, ov, start, ms),
                ov == preorder_roots(self.nodes@, self.roots@),
        {
            let m = self.to_browser_node(hits[k]);
            assert(ms[k as int] == subtree(nodes, hits@[k as int]@ as int));
            let ghost before = claimed@;
            let ghost tail = ms.skip(k as int);
            assert(tail[0] == ms[k as int]);
            assert(tail.drop_first() =~= ms.skip(k + 1));
            let found = self.find_unclaimed_browser_node(&m, &mut claimed);
            match found {
                Some(x) => {
                    let ghost prev = out@;
                    out.push(x);
                    assert(ids_view(out@) =~= ids_view(prev).push(x@));
                    assert(ids_view(out@) + claim_all(nodes, ov, claimed@, ms.skip(k + 1))
                        =~= ids_view(prev) + (seq![x@] + claim_all(nodes, ov, claimed@, ms.skip(k + 1))));
                },
                None => {},
            }
        }
        assert(ms.skip(hits.len() as int) =~= Seq::<NodeV>::empty());
        assert(ids_view(out@) + Seq::<nat>::empty() =~= ids_view(out@));
        out
    }
}


proof fn lemma_claim_all_fresh(nodes: Seq<ArenaNode>, order: Seq<nat>, claimed: Seq<bool>, ms: Seq<NodeV>)
    ensures
        forall|k: int| 0 <= k < claim_all(nodes, order, claimed, ms).len() ==> {
            let x = #[trigger] claim_all(nodes, order, claimed, ms)[k];
            x < claimed.len() && !claimed[x as int]
        },
        forall|k: int, l: int| 0 <= k < l < claim_all(nodes, order, claimed, ms).len() ==>
            claim_all(nodes, order, claimed, ms)[k] != claim_all(nodes, order, claimed, ms)[l],
    decreases ms.len(),
{
    if ms.len() > 0 {
        lemma_first_fit_fits(nodes, order, claimed, ms[0]);
        match first_fit(nodes, order, claimed, ms[0]) {
            Some(x) => {
                let c2 = claimed.update(x as int, true);
                lemma_claim_all_fresh(nodes, order, c2, ms.drop_first());
                let rest = claim_all(nodes, order, c2, ms.drop_first());
                let all = claim_all(nodes, order, claimed, ms);
                assert(all == seq![x] + rest);
                assert(fits(nodes, claimed, x, ms[0]));
                assert(all[0] == x);
                assert forall|k: int| 0 <= k < all.len() implies {
                    let y = #[trigger] all[k];
                    y < claimed.len() && !claimed[y as int]
                } by {
                    if k > 0 {
                        assert(all[k] == rest[k - 1]);
                        assert(c2[rest[k - 1] as int] == false);
                    }
                }
                assert forall|k: int, l: int| 0 <= k < l < all.len() implies all[k] != all[l] by {
                    assert(all[l] == rest[l - 1]);
                    if k > 0 {
                        assert(all[k] == rest[k - 1]);
                    } else {
                        assert(!c2[rest[l - 1] as int]);
                    }
                }
            },
            None => {
                lemma_claim_all_fresh(nodes, order, claimed, ms.drop_first());
                assert(claim_all(nodes, order, claimed, ms) == claim_all(nodes, order, claimed, ms.drop_first()));
            },
        }
    }
}

/// `query_selector` never hands out an id twice, and every id it hands out
/// names a node of the arena.
pub proof fn law_query_ids_distinct(nodes: Seq<ArenaNode>, roots: Seq<NodeId>, sel: Seq<char>)
    ensures
        forall|k: int| 0 <= k < query_spec(nodes, roots, sel).len() ==> #[trigger] query_spec(nodes, roots, sel)[k] < nodes.len(),
        forall|k: int, l: int| 0 <= k < l < query_spec(nodes, roots, sel).len() ==>
            query_spec(nodes, roots, sel)[k] != query_spec(nodes, roots, sel)[l],
{
    match parse_selector(sel) {
        None => {},
        Some(groups) => {
            let order = preorder_roots(nodes, roots);
            let hits = order.filter(|x: nat| selector_holds(nodes, groups, x as int));
            let ms = hits.map(|i: int, x: nat| subtree(nodes, x as int));
            let c0 = Seq::new(nodes.len(), |i: int| false);
            lemma_claim_all_fresh(nodes, order, c0, ms);
        },
    }
}


/// The ids `lo, lo + 1, ..., lo + len - 1`.
pub open spec fn id_range(lo: nat, len: nat) -> Seq<nat> {
    Seq::new(len, |k: int| (lo + k) as nat)
}

proof fn lemma_id_range_concat(lo: nat, a: nat, b: nat)
    ensures
        id_range(lo, a) + id_range(lo + a, b) == id_range(lo, a + b),
{
    assert(id_range(lo, a) + id_range(lo + a, b) =~= id_range(lo, a + b));
}

proof fn lemma_preorder_frame(a: Seq<ArenaNode>, b: Seq<ArenaNode>, lo: int, x: int)
    requires
        same_from(a, b, lo),
        kids_bounded(a, lo),
        lo <= x < a.len(),
    ensures
        preorder_from(b, x) == preorder_from(a, x),
    decreases a.len() - x, 1int,
{
    let ids = a[x].children@;
    assert(b[x].children@ == ids);
    lemma_preorder_list_frame(a, b, lo, x, ids);
}

proof fn lemma_preorder_list_frame(a: Seq<ArenaNode>, b: Seq<ArenaNode>, lo: int, x: int, ids: Seq<NodeId>)
    requires
        same_from(a, b, lo),
        kids_bounded(a, lo),
        lo <= x + 1,
        0 <= x < a.len(),
        forall|k: int| 0 <= k < ids.len() ==> x < (#[trigger] ids[k])@ < a.len(),
    ensures
        preorder_list(b, x, ids) == preorder_list(a, x, ids),
    decreases a.len() - x, 0int, ids.len(),
{
    if ids.len() > 0 {
        lemma_preorder_list_frame(a, b, lo, x, ids.drop_last());
        let c = ids.last()@ as int;
        lemma_preorder_frame(a, b, lo, c);
    }
}

proof fn lemma_preorder_roots_frame(a: Seq<ArenaNode>, b: Seq<ArenaNode>, roots: Seq<NodeId>)
    requires
        same_from(a, b, 0),
        kids_bounded(a, 0),
        forall|k: int| 0 <= k < roots.len() ==> (#[trigger] roots[k])@ < a.len(),
    ensures
        preorder_roots(b, roots) == preorder_roots(a, roots),
    decreases roots.len(),
{
    if roots.len() > 0 {
        lemma_preorder_roots_frame(a, b, roots.drop_last());
        lemma_preorder_frame(a, b, 0, roots.last()@ as int);
    }
}


proof fn lemma_ids_with_parent_contains(nodes: Seq<ArenaNode>, parent: Option<nat>, n: int, c: nat)
    requires
        0 <= n <= nodes.len(),
    ensures
        ids_with_parent(nodes, parent, n).contains(c) <==> (c < n && parent_of(nodes[c as int]) == parent),
    decreases n,
{
    if n > 0 {
        lemma_ids_with_parent_contains(nodes, parent, n - 1, c);
        let prev = ids_with_parent(nodes, parent, n - 1);
        if parent_of(nodes[n - 1]) == parent {
            let cur = prev.push((n - 1) as nat);
            if prev.contains(c) {
                let k = choose|k: int| 0 <= k < prev.len() && prev[k] == c;
                assert(cur[k] == c);
            }
            if c == n - 1 {
                assert(cur[prev.len() as int] == c);
            }
            if cur.contains(c) {
                let k = choose|k: int| 0 <= k < cur.len() && cur[k] == c;
                if k < prev.len() {
                    assert(prev[k] == c);
                }
            }
        }
    }
}

/// Parent and child links agree: `c`'s parent is `p` exactly when `c` is
/// among `p`'s children; `c` has no parent exactly when it is a root; and a
/// parent's id is below its child's.
pub proof fn law_parent_child_links(nodes: Seq<ArenaNode>, roots: Seq<NodeId>)
    requires
        arena_wf(nodes, roots),
    ensures
        forall|p: int, c: int| 0 <= p < nodes.len() && 0 <= c < nodes.len() ==>
            (parent_of(nodes[c]) == Some(p as nat) <==> #[trigger] ids_view(nodes[p].children@).contains(c as nat)),
        forall|c: int| 0 <= c < nodes.len() ==>
            (parent_of(nodes[c]) is None <==> #[trigger] ids_view(roots).contains(c as nat)),
        forall|c: int| 0 <= c < nodes.len() ==> (#[trigger] parent_of(nodes[c]) matches Some(p) ==> p < c),
{
    assert forall|p: int, c: int| 0 <= p < nodes.len() && 0 <= c < nodes.len() implies
        (parent_of(nodes[c]) == Some(p as nat) <==> #[trigger] ids_view(nodes[p].children@).contains(c as nat)) by {
        lemma_ids_with_parent_contains(nodes, Some(p as nat), nodes.len() as int, c as nat);
    }
    assert forall|c: int| 0 <= c < nodes.len() implies
        (parent_of(nodes[c]) is None <==> #[trigger] ids_view(roots).contains(c as nat)) by {
        lemma_ids_with_parent_contains(nodes, None, nodes.len() as int, c as nat);
    }
}


// ---------------------------------------------------------------------------
// Every match is claimed.

pub open spec fn distinct_ids(s: Seq<nat>) -> bool {
    forall|i: int, j: int| 0 <= i < j < s.len() ==> s[i] != s[j]
}

/// `y` is `a` or lies below `a` (following parent links from `y`).
pub open spec fn desc(nodes: Seq<ArenaNode>, a: int, y: int) -> bool
    decreases y,
{
    if y == a {
        true
    } else if y < 0 || y >= nodes.len() {
        false
    } else {
        match parent_of(nodes[y]) {
            Some(p) => (p as int) < y && desc(nodes, a, p as int),
            None => false,
        }
    }
}

proof fn lemma_desc_ge(nodes: Seq<ArenaNode>, a: int, y: int)
    requires
        desc(nodes, a, y),
    ensures
        a <= y,
    decreases y,
{
    if y != a {
        let p = parent_of(nodes[y])->Some_0 as int;
        lemma_desc_ge(nodes, a, p);
    }
}

proof fn lemma_desc_step(nodes: Seq<ArenaNode>, x: int, c: int, y: int)
    requires
        desc(nodes, c, y),
        0 <= c < nodes.len(),
        parent_of(nodes[c]) == Some(x as nat),
        0 <= x < c,
    ensures
        desc(nodes, x, y),
    decreases y,
{
    if y == c {
        assert(desc(nodes, x, x));
    } else if y != x {
        let p = parent_of(nodes[y])->Some_0 as int;
        lemma_desc_step(nodes, x, c, p);
    }
}

proof fn lemma_desc_linear(nodes: Seq<ArenaNode>, a: int, b: int, y: int)
    requires
        desc(nodes, a, y),
        desc(nodes, b, y),
    ensures
        desc(nodes, a, b) || desc(nodes, b, a),
    decreases y,
{
    if y != a && y != b {
        let p = parent_of(nodes[y])->Some_0 as int;
        lemma_desc_linear(nodes, a, b, p);
    }
}

/// Two distinct children of one node, or two distinct roots, have no
/// common descendant.
proof fn lemma_siblings_disjoint(nodes: Seq<ArenaNode>, par: Option<nat>, a: int, b: int, y: int)
    requires
        0 <= a < nodes.len(),
        0 <= b < nodes.len(),
        a != b,
        parent_of(nodes[a]) == par,
        parent_of(nodes[b]) == par,
        par matches Some(x) ==> x < a && x < b,
    ensures
        !(desc(nodes, a, y) && desc(nodes, b, y)),
{
    if desc(nodes, a, y) && desc(nodes, b, y) {
        lemma_desc_linear(nodes, a, b, y);
        if desc(nodes, a, b) {
            match par {
                Some(x) => {
                    lemma_desc_ge(nodes, a, x as int);
                },
                None => {},
            }
        } else {
            match par {
                Some(x) => {
                    lemma_desc_ge(nodes, b, x as int);
                },
                None => {},
            }
        }
    }
}

proof fn lemma_children_facts(nodes: Seq<ArenaNode>, roots: Seq<NodeId>, x: int)
    requires
        arena_wf(nodes, roots),
        0 <= x < nodes.len(),
    ensures
        forall|k: int| 0 <= k < nodes[x].children@.len() ==> {
            let c = (#[trigger] nodes[x].children@[k])@;
            &&& x < c < nodes.len()
            &&& parent_of(nodes[c as int]) == Some(x as nat)
        },
        forall|k: int, l: int| 0 <= k < l < nodes[x].children@.len() ==> nodes[x].children@[k]@ < nodes[x].children@[l]@,
{
    lemma_ids_with_parent_bounds(nodes, Some(x as nat), nodes.len() as int);
    assert forall|k: int| 0 <= k < nodes[x].children@.len() implies {
        let c = (#[trigger] nodes[x].children@[k])@;
        &&& x < c < nodes.len()
        &&& parent_of(nodes[c as int]) == Some(x as nat)
    } by {
        assert(ids_view(nodes[x].children@)[k] == nodes[x].children@[k]@);
        let c = nodes[x].children@[k]@;
        assert(parent_of(nodes[c as int]) matches Some(p) ==> p < c);
    }
    assert forall|k: int, l: int| 0 <= k < l < nodes[x].children@.len() implies nodes[x].children@[k]@ < nodes[x].children@[l]@ by {
        assert(ids_view(nodes[x].children@)[k] == nodes[x].children@[k]@);
        assert(ids_view(nodes[x].children@)[l] == nodes[x].children@[l]@);
    }
}

proof fn lemma_preorder_distinct(nodes: Seq<ArenaNode>, roots: Seq<NodeId>, x: int)
    requires
        arena_wf(nodes, roots),
        0 <= x < nodes.len(),
    ensures
        distinct_ids(preorder_from(nodes, x)),
        forall|k: int| 0 <= k < preorder_from(nodes, x).len() ==> desc(nodes, x, #[trigger] preorder_from(nodes, x)[k] as int),
    decreases nodes.len() - x, 1int,
{
    let ids = nodes[x].children@;
    lemma_children_facts(nodes, roots, x);
    lemma_preorder_list_distinct(nodes, roots, x, ids.len() as int);
    assert(ids.take(ids.len() as int) =~= ids);
    let rest = preorder_list(nodes, x, ids);
    let all = preorder_from(nodes, x);
    assert(all == seq![x as nat] + rest);
    assert forall|k: int| 0 <= k < all.len() implies desc(nodes, x, #[trigger] all[k] as int) by {
        if k > 0 {
            assert(all[k] == rest[k - 1]);
            let y = rest[k - 1] as int;
            let j = choose|j: int| 0 <= j < ids.len() && desc(nodes, ids[j]@ as int, y);
            lemma_desc_step(nodes, x, ids[j]@ as int, y);
        }
    }
    assert forall|i: int, j: int| 0 <= i < j < all.len() implies all[i] != all[j] by {
        assert(all[j] == rest[j - 1]);
        if i == 0 {
            let y = rest[j - 1] as int;
            let m = choose|m: int| 0 <= m < ids.len() && desc(nodes, ids[m]@ as int, y);
            lemma_desc_ge(nodes, ids[m]@ as int, y);
        } else {
            assert(all[i] == rest[i - 1]);
        }
    }
}

proof fn lemma_preorder_list_distinct(nodes: Seq<ArenaNode>, roots: Seq<NodeId>, x: int, n: int)
    requires
        arena_wf(nodes, roots),
        0 <= x < nodes.len(),
        0 <= n <= nodes[x].children@.len(),
        forall|k: int| 0 <= k < nodes[x].children@.len() ==> {
            let c = (#[trigger] nodes[x].children@[k])@;
            &&& x < c < nodes.len()
            &&& parent_of(nodes[c as int]) == Some(x as nat)
        },
        forall|k: int, l: int| 0 <= k < l < nodes[x].children@.len() ==> nodes[x].children@[k]@ < nodes[x].children@[l]@,
    ensures
        distinct_ids(preorder_list(nodes, x, nodes[x].children@.take(n))),
        forall|k: int| 0 <= k < preorder_list(nodes, x, nodes[x].children@.take(n)).len() ==>
            exists|j: int| 0 <= j < n && desc(nodes, nodes[x].children@[j]@ as int,
                #[trigger] preorder_list(nodes, x, nodes[x].children@.take(n))[k] as int),
    decreases nodes.len() - x, 0int, n,
{
    let ids = nodes[x].children@;
    if n > 0 {
        lemma_preorder_list_distinct(nodes, roots, x, n - 1);
        let c = ids[n - 1]@ as int;
        lemma_preorder_distinct(nodes, roots, c);
        assert(ids.take(n).drop_last() =~= ids.take(n - 1));
        assert(ids.take(n).last() == ids[n - 1]);
        let a = preorder_list(nodes, x, ids.take(n - 1));
        let b = preorder_from(nodes, c);
        let all = preorder_list(nodes, x, ids.take(n));
        assert(all == a + b);
        assert forall|k: int| 0 <= k < all.len() implies exists|j: int| 0 <= j < n && desc(nodes, ids[j]@ as int, #[trigger] all[k] as int) by {
            if k < a.len() {
                assert(all[k] == a[k]);
                let j = choose|j: int| 0 <= j < n - 1 && desc(nodes, ids[j]@ as int, #[trigger] a[k] as int);
            } else {
                assert(all[k] == b[k - a.len()]);
                assert(desc(nodes, ids[n - 1]@ as int, b[k - a.len()] as int));
            }
        }
        assert forall|i: int, j: int| 0 <= i < j < all.len() implies all[i] != all[j] by {
            if j < a.len() {
                assert(all[i] == a[i] && all[j] == a[j]);
            } else if i >= a.len() {
                assert(all[i] == b[i - a.len()] && all[j] == b[j - a.len()]);
            } else {
                assert(all[i] == a[i] && all[j] == b[j - a.len()]);
                let y = a[i] as int;
                let m = choose|m: int| 0 <= m < n - 1 && desc(nodes, ids[m]@ as int, #[trigger] a[i] as int);
                if all[i] == all[j] {
                    lemma_siblings_disjoint(nodes, Some(x as nat), ids[m]@ as int, c, y);
                }
            }
        }
    } else {
        assert(ids.take(0) =~= Seq::<NodeId>::empty());
    }
}

proof fn lemma_preorder_roots_distinct(nodes: Seq<ArenaNode>, roots: Seq<NodeId>, n: int)
    requires
        arena_wf(nodes, roots),
        0 <= n <= roots.len(),
    ensures
        distinct_ids(preorder_roots(nodes, roots.take(n))),
        forall|k: int| 0 <= k < preorder_roots(nodes, roots.take(n)).len() ==>
            exists|j: int| 0 <= j < n && desc(nodes, roots[j]@ as int, #[trigger] preorder_roots(nodes, roots.take(n))[k] as int),
    decreases n,
{
    if n > 0 {
        lemma_preorder_roots_distinct(nodes, roots, n - 1);
        lemma_wf_kids_bounded(nodes, roots);
        lemma_ids_with_parent_bounds(nodes, None, nodes.len() as int);
        let c = roots[n - 1]@ as int;
        assert(ids_view(roots)[n - 1] == roots[n - 1]@);
        assert(parent_of(nodes[c]) is None);
        lemma_preorder_distinct(nodes, roots, c);
        assert(roots.take(n).drop_last() =~= roots.take(n - 1));
        assert(roots.take(n).last() == roots[n - 1]);
        let a = preorder_roots(nodes, roots.take(n - 1));
        let b = preorder_from(nodes, c);
        let all = preorder_roots(nodes, roots.take(n));
        assert(all == a + b);
        assert forall|k: int| 0 <= k < all.len() implies exists|j: int| 0 <= j < n && desc(nodes, roots[j]@ as int, #[trigger] all[k] as int) by {
            if k < a.len() {
                assert(all[k] == a[k]);
                let j = choose|j: int| 0 <= j < n - 1 && desc(nodes, roots[j]@ as int, #[trigger] a[k] as int);
            } else {
                assert(all[k] == b[k - a.len()]);
                assert(desc(nodes, roots[n - 1]@ as int, b[k - a.len()] as int));
            }
        }
        assert forall|i: int, j: int| 0 <= i < j < all.len() implies all[i] != all[j] by {
            if j < a.len() {
                assert(all[i] == a[i] && all[j] == a[j]);
            } else if i >= a.len() {
                assert(all[i] == b[i - a.len()] && all[j] == b[j - a.len()]);
            } else {
                assert(all[i] == a[i] && all[j] == b[j - a.len()]);
                let y = a[i] as int;
                let m = choose|m: int| 0 <= m < n - 1 && desc(nodes, roots[m]@ as int, #[trigger] a[i] as int);
                if all[i] == all[j] {
                    let r = roots[m]@ as int;
                    assert(ids_view(roots)[m] == roots[m]@);
                    assert(r != c);
                    assert(parent_of(nodes[r]) is None);
                    lemma_siblings_disjoint(nodes, None, r, c, y);
                }
            }
        }
    } else {
        assert(roots.take(0) =~= Seq::<NodeId>::empty());
    }
}


proof fn lemma_first_fit_found(nodes: Seq<ArenaNode>, order: Seq<nat>, claimed: Seq<bool>, m: NodeV, y: nat)
    requires
        order.contains(y),
        fits(nodes, claimed, y, m),
    ensures
        first_fit(nodes, order, claimed, m) is Some,
    decreases order.len(),
{
    if !fits(nodes, claimed, order[0], m) {
        let k = choose|k: int| 0 <= k < order.len() && order[k] == y;
        assert(k > 0);
        assert(order.drop_first()[k - 1] == y);
        lemma_first_fit_found(nodes, order.drop_first(), claimed, m, y);
    }
}

/// Where distinct unclaimed nodes of `order` stand for the matched trees one
/// for one, every matched tree claims a node, and each claimed node's
/// subtree is its tree.
proof fn lemma_claim_all_full(nodes: Seq<ArenaNode>, order: Seq<nat>, claimed: Seq<bool>, ms: Seq<NodeV>, ws: Seq<nat>)
    requires
        ws.len() == ms.len(),
        distinct_ids(ws),
        forall|i: int| 0 <= i < ws.len() ==> order.contains(#[trigger] ws[i]),
        forall|i: int| 0 <= i < ws.len() ==> fits(nodes, claimed, #[trigger] ws[i], ms[i]),
    ensures
        claim_all(nodes, order, claimed, ms).len() == ms.len(),
        forall|k: int| 0 <= k < ms.len() ==> subtree(nodes, #[trigger] claim_all(nodes, order, claimed, ms)[k] as int) == ms[k],
    decreases ms.len(),
{
    if ms.len() > 0 {
        lemma_first_fit_found(nodes, order, claimed, ms[0], ws[0]);
        lemma_first_fit_fits(nodes, order, claimed, ms[0]);
        let x = first_fit(nodes, order, claimed, ms[0])->Some_0;
        let c2 = claimed.update(x as int, true);
        let w2 = Seq::new((ws.len() - 1) as nat, |i: int| if ws[i + 1] == x { ws[0] } else { ws[i + 1] });
        let ms2 = ms.drop_first();
        assert forall|i: int| 0 <= i < w2.len() implies fits(nodes, c2, #[trigger] w2[i], ms2[i]) by {
            assert(fits(nodes, claimed, ws[i + 1], ms[i + 1]));
            if ws[i + 1] == x {
                assert(ws[0] != ws[i + 1]);
                assert(fits(nodes, claimed, ws[0], ms[0]));
            } else {
            }
        }
        assert forall|i: int, j: int| 0 <= i < j < w2.len() implies w2[i] != w2[j] by {
            assert(ws[i + 1] != ws[j + 1]);
            assert(ws[0] != ws[i + 1] && ws[0] != ws[j + 1]);
        }
        assert forall|i: int| 0 <= i < w2.len() implies order.contains(#[trigger] w2[i]) by {
            assert(order.contains(ws[i + 1]));
            assert(order.contains(ws[0]));
        }
        lemma_claim_all_full(nodes, order, c2, ms2, w2);
        let rest = claim_all(nodes, order, c2, ms2);
        let all = claim_all(nodes, order, claimed, ms);
        assert(all == seq![x] + rest);
        assert forall|k: int| 0 <= k < ms.len() implies subtree(nodes, #[trigger] all[k] as int) == ms[k] by {
            if k > 0 {
                assert(all[k] == rest[k - 1]);
                assert(ms2[k - 1] == ms[k]);
            }
        }
    }
}

proof fn lemma_filter_distinct(s: Seq<nat>, p: spec_fn(nat) -> bool)
    requires
        distinct_ids(s),
    ensures
        distinct_ids(s.filter(p)),
        forall|k: int| 0 <= k < s.filter(p).len() ==> s.contains(#[trigger] s.filter(p)[k]),
    decreases s.len(),
{
    if s.len() > 0 {
        let d = s.drop_last();
        assert forall|i: int, j: int| 0 <= i < j < d.len() implies d[i] != d[j] by {
            assert(d[i] == s[i] && d[j] == s[j]);
        }
        lemma_filter_distinct(d, p);
        d.lemma_filter_push(s.last(), p);
        assert(s =~= d.push(s.last()));
        let f = d.filter(p);
        assert forall|k: int| 0 <= k < f.len() implies s.contains(#[trigger] f[k]) by {
            let j = choose|j: int| 0 <= j < d.len() && d[j] == f[k];
            assert(s[j] == f[k]);
        }
        if p(s.last()) {
            let g = f.push(s.last());
            assert forall|i: int, j: int| 0 <= i < j < g.len() implies g[i] != g[j] by {
                if j == f.len() {
                    assert(g[i] == f[i]);
                    let m = choose|m: int| 0 <= m < d.len() && d[m] == f[i];
                    assert(s[m] == d[m]);
                    assert(s[m] != s[s.len() - 1]);
                } else {
                    assert(g[i] == f[i] && g[j] == f[j]);
                }
            }
            assert forall|k: int| 0 <= k < g.len() implies s.contains(#[trigger] g[k]) by {
                if k < f.len() {
                    assert(g[k] == f[k]);
                } else {
                    assert(s[s.len() - 1] == g[k]);
                }
            }
        }
    }
}

/// `query_selector` claims a node for every match: it returns as many ids
/// as there are matching nodes, and the subtree at the `k`-th id equals the
/// subtree of the `k`-th match in document order.
pub proof fn law_query_claims_every_match(nodes: Seq<ArenaNode>, roots: Seq<NodeId>, sel: Seq<char>)
    requires
        arena_wf(nodes, roots),
    ensures
        parse_selector(sel) is None ==> query_spec(nodes, roots, sel).len() == 0,
        parse_selector(sel) matches Some(groups) ==> {
            let hits = preorder_roots(nodes, roots).filter(|x: nat| selector_holds(nodes, groups, x as int));
            &&& query_spec(nodes, roots, sel).len() == hits.len()
            &&& forall|k: int| 0 <= k < hits.len() ==>
                subtree(nodes, #[trigger] query_spec(nodes, roots, sel)[k] as int) == subtree(nodes, hits[k] as int)
        },
{
    match parse_selector(sel) {
        None => {},
        Some(groups) => {
            let order = preorder_roots(nodes, roots);
            let pred = |x: nat| selector_holds(nodes, groups, x as int);
            let hits = order.filter(pred);
            let ms = hits.map(|i: int, x: nat| subtree(nodes, x as int));
            let c0 = Seq::new(nodes.len(), |i: int| false);
            lemma_preorder_roots_distinct(nodes, roots, roots.len() as int);
            assert(roots.take(roots.len() as int) =~= roots);
            lemma_preorder_roots_bounds(nodes, roots);
            lemma_filter_distinct(order, pred);
            assert forall|i: int| 0 <= i < hits.len() implies fits(nodes, c0, #[trigger] hits[i], ms[i]) by {
                let j = choose|j: int| 0 <= j < order.len() && order[j] == hits[i];
            }
            lemma_claim_all_full(nodes, order, c0, ms, hits);
        },
    }
}

} // verus!

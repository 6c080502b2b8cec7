//! DOM operations of the page script bindings. A node is addressed by its
//! path of child indices from the root; writes through a path that does not
//! lead to a node change nothing.

use vstd::prelude::*;

use crate::document::{
    attrs_view, clone_node, document_view, lemma_nodes_view, lemma_nodes_view_ext, node_size,
    node_view, nodes_view, Document, Element, Node, NodeV,
};
use crate::text::{
    chars_of, is_space, is_whitespace, lower, push_char, replace, replace_char, str_trim,
    string_from, substring, to_ascii_lowercase, to_ascii_uppercase, trim, upper,
};
use crate::url::PairV;
use crate::value::strings_view;

verus! {

/// Where `append_child` puts the new child.
#[derive(Debug, Clone, Copy, PartialEq, Eq)]
pub enum InsertPosition {
    Append,
    Prepend,
}

/// The node at `path` below `v`.
pub open spec fn node_at(v: NodeV, path: Seq<usize>) -> Option<NodeV>
    decreases path.len(),
{
    if path.len() == 0 {
        Some(v)
    } else {
        match v {
            NodeV::Element { children, .. } => if path[0] < children.len() {
                node_at(children[path[0] as int], path.drop_first())
            } else {
                None
            },
            NodeV::Text(_) => None,
        }
    }
}

/// An edit applied to one node.
pub enum EditV {
    /// Text node: replace its text; element: replace its children by one text node.
    SetText(Seq<char>),
    /// Element: set an attribute (in place when present, else appended).
    SetAttr(Seq<char>, Seq<char>),
    /// Element: drop an attribute.
    RemoveAttr(Seq<char>),
    /// Element: insert a child.
    Insert(NodeV, InsertPosition),
    /// Element: remove the child at an index, when there is one.
    RemoveChild(usize),
}

pub open spec fn attr_pos(attrs: Seq<PairV>, name: Seq<char>, i: int) -> bool {
    0 <= i < attrs.len() && attrs[i].0 == name && forall|j: int| 0 <= j < i ==> attrs[j].0 != name
}

pub open spec fn attr_has(attrs: Seq<PairV>, name: Seq<char>) -> bool {
    exists|i: int| 0 <= i < attrs.len() && attrs[i].0 == name
}

/// Value of the attribute `name`.
pub open spec fn attr_get(attrs: Seq<PairV>, name: Seq<char>) -> Option<Seq<char>> {
    if attr_has(attrs, name) {
        Some(attrs[choose|i: int| attr_pos(attrs, name, i)].1)
    } else {
        None
    }
}

/// Attributes after setting `name` to `value`.
pub open spec fn attr_set(attrs: Seq<PairV>, name: Seq<char>, value: Seq<char>) -> Seq<PairV> {
    if attr_has(attrs, name) {
        attrs.update(choose|i: int| attr_pos(attrs, name, i), (name, value))
    } else {
        attrs.push((name, value))
    }
}

/// Attributes without `name`.
pub open spec fn attr_remove(attrs: Seq<PairV>, name: Seq<char>) -> Seq<PairV>
    decreases attrs.len(),
{
    if attrs.len() == 0 {
        Seq::empty()
    } else if attrs.last().0 != name {
        attr_remove(attrs.drop_last(), name).push(attrs.last())
    } else {
        attr_remove(attrs.drop_last(), name)
    }
}

/// One node after an edit.
pub open spec fn apply_edit(v: NodeV, e: EditV) -> NodeV {
    match v {
        NodeV::Text(_) => match e {
            EditV::SetText(t) => NodeV::Text(t),
            _ => v,
        },
        NodeV::Element { tag, attrs, children } => match e {
            EditV::SetText(t) => NodeV::Element { tag, attrs, children: seq![NodeV::Text(t)] },
            EditV::SetAttr(n, val) => NodeV::Element { tag, attrs: attr_set(attrs, n, val), children },
            EditV::RemoveAttr(n) => NodeV::Element { tag, attrs: attr_remove(attrs, n), children },
            EditV::Insert(c, InsertPosition::Append) => NodeV::Element { tag, attrs, children: children.push(c) },
            EditV::Insert(c, InsertPosition::Prepend) => NodeV::Element { tag, attrs, children: seq![c] + children },
            EditV::RemoveChild(i) => if i < children.len() {
                NodeV::Element { tag, attrs, children: children.remove(i as int) }
            } else {
                v
            },
        },
    }
}

/// The tree after applying an edit to the node at `path` (unchanged when no
/// node is there).
pub open spec fn edit_at(v: NodeV, path: Seq<usize>, e: EditV) -> NodeV
    decreases path.len(),
{
    if path.len() == 0 {
        apply_edit(v, e)
    } else {
        match v {
            NodeV::Element { tag, attrs, children } => if path[0] < children.len() {
                NodeV::Element {
                    tag,
                    attrs,
                    children: children.update(path[0] as int, edit_at(children[path[0] as int], path.drop_first(), e)),
                }
            } else {
                v
            },
            NodeV::Text(_) => v,
        }
    }
}

/// An edit on the executable side.
pub enum Edit {
    SetText(String),
    SetAttr(String, String),
    RemoveAttr(String),
    Insert(Node, InsertPosition),
    RemoveChild(usize),
}

pub open spec fn edit_view(e: Edit) -> EditV {
    match e {
        Edit::SetText(t) => EditV::SetText(t@),
        Edit::SetAttr(n, v) => EditV::SetAttr(n@, v@),
        Edit::RemoveAttr(n) => EditV::RemoveAttr(n@),
        Edit::Insert(c, p) => EditV::Insert(node_view(c), p),
        Edit::RemoveChild(i) => EditV::RemoveChild(i),
    }
}

proof fn lemma_attr_pos_unique(attrs: Seq<PairV>, name: Seq<char>, i: int)
    requires
        attr_pos(attrs, name, i),
    ensures
        attr_has(attrs, name),
        (choose|k: int| attr_pos(attrs, name, k)) == i,
{
    assert(attr_pos(attrs, name, i));
    let k = choose|k: int| attr_pos(attrs, name, k);
    assert(attr_pos(attrs, name, k));
    if k < i {
        assert(attrs[k].0 != name);
    }
    if k > i {
        assert(attrs[i].0 != name);
    }
}

fn attr_find(attrs: &Vec<(String, String)>, name: &String) -> (r: Option<usize>)
    ensures
        r matches Some(i) ==> attr_pos(attrs_view(attrs@), name@, i as int),
        r is None ==> !attr_has(attrs_view(attrs@), name@),
{
    for i in 0..attrs.len()
        invariant
            forall|j: int| 0 <= j < i ==> attrs_view(attrs@)[j].0 != name@,
    {
        if attrs[i].0 == *name {
            return Some(i);
        }
    }
    None
}

/// `getAttribute(name)` on an attribute list.
pub fn get_attr(attrs: &Vec<(String, String)>, name: &str) -> (r: Option<String>)
    ensures
        r matches Some(v) ==> attr_get(attrs_view(attrs@), name@) == Some(v@),
        r is None ==> attr_get(attrs_view(attrs@), name@) is None,
{
    let n = String::from_str(name);
    match attr_find(attrs, &n) {
        Some(i) => {
            proof {
                lemma_attr_pos_unique(attrs_view(attrs@), name@, i as int);
            }
            Some(attrs[i].1.clone())
        },
        None => None,
    }
}

fn set_attr(attrs: &mut Vec<(String, String)>, name: String, value: String)
    ensures
        attrs_view(final(attrs)@) == attr_set(attrs_view(old(attrs)@), name@, value@),
{
    match attr_find(attrs, &name) {
        Some(i) => {
            proof {
                lemma_attr_pos_unique(attrs_view(attrs@), name@, i as int);
            }
            let ghost before = attrs_view(attrs@);
            attrs.set(i, (name, value));
            assert(attrs_view(attrs@) =~= before.update(i as int, (name@, value@)));
        },
        None => {
            let ghost before = attrs_view(attrs@);
            attrs.push((name, value));
            assert(attrs_view(attrs@) =~= before.push((name@, value@)));
        },
    }
}

fn remove_attr(attrs: &mut Vec<(String, String)>, name: &String)
    ensures
        attrs_view(final(attrs)@) == attr_remove(attrs_view(old(attrs)@), name@),
{
    let ghost av = attrs_view(attrs@);
    let mut kept: Vec<(String, String)> = Vec::new();
    assert(attrs_view(kept@) =~= attr_remove(av.take(0), name@));
    for i in 0..attrs.len()
        invariant
            av == attrs_view(attrs@),
            attrs_view(kept@) == attr_remove(av.take(i as int), name@),
    {
        assert(av.take(i + 1).drop_last() =~= av.take(i as int));
        if attrs[i].0 != *name {
            kept.push((attrs[i].0.clone(), attrs[i].1.clone()));
            assert(attrs_view(kept@) =~= attr_remove(av.take(i as int), name@).push(av[i as int]));
        } else {
            assert(attrs_view(kept@) =~= attr_remove(av.take(i + 1), name@));
        }
    }
    assert(av.take(attrs.len() as int) =~= av);
    *attrs = kept;
}

/// Applies an edit to one node.
pub fn apply(node: &mut Node, edit: Edit)
    ensures
        node_view(*final(node)) == apply_edit(node_view(*old(node)), edit_view(edit)),
{
    match node {
        Node::Text(existing) => {
            match edit {
                Edit::SetText(t) => {
                    *existing = t;
                },
                _ => {},
            }
        },
        Node::Element(el) => {
            proof {
                lemma_nodes_view(el.children@);
            }
            match edit {
                Edit::SetText(t) => {
                    let mut children: Vec<Node> = Vec::new();
                    children.push(Node::Text(t));
                    proof {
                        lemma_nodes_view_ext(children@, seq![NodeV::Text(t@)]);
                    }
                    el.children = children;
                },
                Edit::SetAttr(n, v) => {
                    set_attr(&mut el.attrs, n, v);
                },
                Edit::RemoveAttr(n) => {
                    remove_attr(&mut el.attrs, &n);
                },
                Edit::Insert(c, InsertPosition::Append) => {
                    let ghost cv = node_view(c);
                    let ghost before = nodes_view(el.children@);
                    el.children.push(c);
                    proof {
                        lemma_nodes_view(el.children@);
                        assert(nodes_view(el.children@) =~= before.push(cv));
                    }
                },
                Edit::Insert(c, InsertPosition::Prepend) => {
                    let ghost cv = node_view(c);
                    let ghost before = nodes_view(el.children@);
                    el.children.insert(0, c);
                    proof {
                        lemma_nodes_view(el.children@);
                        assert(nodes_view(el.children@) =~= seq![cv] + before);
                    }
                },
                Edit::RemoveChild(i) => {
                    if i < el.children.len() {
                        let ghost before = nodes_view(el.children@);
                        let _removed = el.children.remove(i);
                        proof {
                            lemma_nodes_view(el.children@);
                            assert(nodes_view(el.children@) =~= before.remove(i as int));
                        }
                    }
                },
            }
        },
    }
}

/// Applies an edit to the node at `path` below `node`.
pub fn edit_node_at(node: &mut Node, path: &[usize], edit: Edit)
    ensures
        node_view(*final(node)) == edit_at(node_view(*old(node)), path@, edit_view(edit)),
    decreases path@.len(),
{
    if path.len() == 0 {
        apply(node, edit);
        return;
    }
    match node {
        Node::Element(el) => {
            proof {
                lemma_nodes_view(el.children@);
            }
            let i = path[0];
            if i < el.children.len() {
                let ghost before = nodes_view(el.children@);
                let rest = crate::dom_tree::slice_tail(path);
                edit_node_at(&mut el.children[i], rest, edit);
                proof {
                    lemma_nodes_view(el.children@);
                    assert(path@.drop_first() == rest@);
                    assert(nodes_view(el.children@) =~= before.update(i as int, nodes_view(el.children@)[i as int]));
                }
            }
        },
        Node::Text(_) => {},
    }
}

/// `path[1..]`.
pub fn slice_tail(path: &[usize]) -> (r: &[usize])
    requires
        path@.len() > 0,
    ensures
        r@ == path@.drop_first(),
{
    let r = vstd::slice::slice_subrange(path, 1, path.len());
    assert(r@ =~= path@.drop_first());
    r
}

} // verus!

verus! {

/// The node at `path`.
pub fn get_node<'a>(node: &'a Node, path: &[usize]) -> (r: Option<&'a Node>)
    ensures
        r matches Some(n) ==> node_at(node_view(*node), path@) == Some(node_view(*n)),
        r is None ==> node_at(node_view(*node), path@) is None,
    decreases path@.len(),
{
    if path.len() == 0 {
        return Some(node);
    }
    match node {
        Node::Element(el) => {
            proof {
                lemma_nodes_view(el.children@);
            }
            let i = path[0];
            if i < el.children.len() {
                let rest = slice_tail(path);
                get_node(&el.children[i], rest)
            } else {
                None
            }
        },
        Node::Text(_) => None,
    }
}

/// Path of the parent of the node at `path` (none for the root).
pub fn parent_path(path: &[usize]) -> (r: Option<Vec<usize>>)
    ensures
        path@.len() == 0 ==> r is None,
        path@.len() > 0 ==> (r matches Some(p) && p@ == path@.drop_last()),
{
    if path.len() == 0 {
        None
    } else {
        let mut p: Vec<usize> = Vec::new();
        for i in 0..path.len() - 1
            invariant
                path@.len() > 0,
                p@ == path@.take(i as int),
        {
            p.push(path[i]);
            assert(path@.take(i + 1) =~= path@.take(i as int).push(path@[i as int]));
        }
        assert(path@.take(path@.len() - 1) =~= path@.drop_last());
        Some(p)
    }
}

/// The paths an event visits while bubbling: the target, then each
/// ancestor up to the root.
pub open spec fn bubble_spec(path: Seq<usize>) -> Seq<Seq<usize>> {
    Seq::new(path.len() + 1, |k: int| path.take(path.len() - k))
}

pub fn bubble_path(path: &[usize]) -> (r: Vec<Vec<usize>>)
    ensures
        r@.len() == path@.len() + 1,
        forall|k: int| 0 <= k < r@.len() ==> (#[trigger] r@[k])@ == bubble_spec(path@)[k],
{
    let mut cur: Vec<usize> = vstd::slice::slice_to_vec(path);
    let mut out: Vec<Vec<usize>> = Vec::new();
    let n = path.len();
    assert(cur@ =~= path@.take(n as int));
    loop
        invariant_except_break
            out@.len() <= n,
            cur@ == path@.take(n - out@.len()),
        invariant
            n == path@.len(),
            forall|k: int| 0 <= k < out@.len() ==> (#[trigger] out@[k])@ == path@.take(n - k),
        ensures
            out@.len() == n + 1,
            forall|k: int| 0 <= k < out@.len() ==> (#[trigger] out@[k])@ == path@.take(n - k),
        decreases n - out@.len(),
    {
        let snapshot = cur.clone();
        assert(snapshot@ == cur@);
        out.push(snapshot);
        if cur.len() == 0 {
            break;
        }
        let _ = cur.pop();
        assert(cur@ =~= path@.take(n - out@.len()));
    }
    out
}

/// Where `append_child` leaves the new child, and whether it went in.
pub open spec fn inserted_index(v: NodeV, path: Seq<usize>, pos: InsertPosition) -> Option<usize> {
    match node_at(v, path) {
        Some(NodeV::Element { children, .. }) => match pos {
            InsertPosition::Append => Some(children.len() as usize),
            InsertPosition::Prepend => Some(0usize),
        },
        _ => None,
    }
}

/// Inserts `child` into the element at `path` and returns the child's path;
/// when no element is at `path`, nothing changes and `path` comes back.
pub fn append_child(root: &mut Node, path: &[usize], child: Node, position: InsertPosition) -> (r: Vec<usize>)
    requires
        node_at(node_view(*old(root)), path@) matches Some(NodeV::Element { children, .. }) ==> children.len() < usize::MAX,
    ensures
        inserted_index(node_view(*old(root)), path@, position) matches Some(i) ==> {
            &&& node_view(*final(root)) == edit_at(node_view(*old(root)), path@, EditV::Insert(node_view(child), position))
            &&& r@ == path@.push(i)
        },
        inserted_index(node_view(*old(root)), path@, position) is None ==> {
            &&& node_view(*final(root)) == node_view(*old(root))
            &&& r@ == path@
        },
{
    let len = match get_node(root, path) {
        Some(Node::Element(el)) => {
            proof {
                lemma_nodes_view(el.children@);
            }
            el.children.len()
        },
        _ => {
            return vstd::slice::slice_to_vec(path);
        },
    };
    let index = match position {
        InsertPosition::Append => len,
        InsertPosition::Prepend => 0,
    };
    edit_node_at(root, path, Edit::Insert(child, position));
    let mut r = vstd::slice::slice_to_vec(path);
    r.push(index);
    r
}

/// The node at `path` has a parent element and can be removed from it.
pub open spec fn removable(v: NodeV, path: Seq<usize>) -> bool {
    &&& path.len() > 0
    &&& node_at(v, path.drop_last()) matches Some(NodeV::Element { children, .. })
    &&& path.last() < children.len()
}

/// Removes the node at `path` from its parent; `false` when there is none.
pub fn remove_self(root: &mut Node, path: &[usize]) -> (r: bool)
    ensures
        r == removable(node_view(*old(root)), path@),
        r ==> node_view(*final(root)) == edit_at(node_view(*old(root)), path@.drop_last(), EditV::RemoveChild(path@.last())),
        !r ==> node_view(*final(root)) == node_view(*old(root)),
{
    let parent = match parent_path(path) {
        Some(p) => p,
        None => return false,
    };
    let index = path[path.len() - 1];
    let ok = match get_node(root, &parent) {
        Some(Node::Element(el)) => {
            proof {
                lemma_nodes_view(el.children@);
            }
            index < el.children.len()
        },
        _ => false,
    };
    if ok {
        edit_node_at(root, &parent, Edit::RemoveChild(index));
    }
    ok
}

/// `nodeName`: the tag, or `#text`.
pub open spec fn node_name_spec(v: NodeV) -> Seq<char> {
    match v {
        NodeV::Element { tag, .. } => tag,
        NodeV::Text(_) => "#text"@,
    }
}

pub fn node_name(node: &Node) -> (r: String)
    ensures
        r@ == node_name_spec(node_view(*node)),
{
    match node {
        Node::Element(el) => el.tag.clone(),
        Node::Text(_) => String::from_str("#text"),
    }
}

/// `textContent`: the concatenated text of all descendant text nodes.
pub open spec fn text_of(v: NodeV) -> Seq<char>
    decreases v,
{
    match v {
        NodeV::Text(t) => t,
        NodeV::Element { children, .. } => texts_of(children),
    }
}

pub open spec fn texts_of(cs: Seq<NodeV>) -> Seq<char>
    decreases cs,
{
    if cs.len() == 0 {
        Seq::empty()
    } else {
        texts_of(cs.drop_last()) + text_of(cs.last())
    }
}

pub fn text_content_raw(node: &Node) -> (r: String)
    ensures
        r@ == text_of(node_view(*node)),
    decreases node,
{
    match node {
        Node::Text(t) => t.clone(),
        Node::Element(el) => {
            proof {
                lemma_nodes_view(el.children@);
            }
            let ghost cs = nodes_view(el.children@);
            let mut r = String::new();
            assert(cs.take(0) =~= Seq::<NodeV>::empty());
            for i in 0..el.children.len()
                invariant
                    *node == Node::Element(*el),
                    cs == nodes_view(el.children@),
                    cs.len() == el.children@.len(),
                    r@ == texts_of(cs.take(i as int)),
            {
                proof {
                    assert(decreases_to!(*node => (*node)->Element_0));
                    assert(decreases_to!((*node)->Element_0 => (*node)->Element_0.children));
                    assert(decreases_to!((*node)->Element_0.children => (*node)->Element_0.children@));
                    assert(decreases_to!((*node)->Element_0.children@ => (*node)->Element_0.children@[i as int]));
                    lemma_nodes_view(el.children@);
                    assert(cs.take(i + 1).drop_last() =~= cs.take(i as int));
                }
                let t = text_content_raw(&el.children[i]);
                r.append(t.as_str());
            }
            assert(cs.take(el.children.len() as int) =~= cs);
            r
        },
    }
}

/// `childElementCount`.
pub open spec fn element_count(cs: Seq<NodeV>) -> nat
    decreases cs.len(),
{
    if cs.len() == 0 {
        0
    } else {
        element_count(cs.drop_last()) + if cs.last() is Element { 1nat } else { 0nat }
    }
}

pub fn child_element_count(node: &Node) -> (r: usize)
    ensures
        r == match node_view(*node) {
            NodeV::Element { children, .. } => element_count(children),
            NodeV::Text(_) => 0,
        },
{
    match node {
        Node::Element(el) => {
            proof {
                lemma_nodes_view(el.children@);
            }
            let ghost cs = nodes_view(el.children@);
            let mut n: usize = 0;
            for i in 0..el.children.len()
                invariant
                    cs == nodes_view(el.children@),
                    cs.len() == el.children@.len(),
                    n == element_count(cs.take(i as int)),
                    n <= i,
            {
                proof {
                    lemma_nodes_view(el.children@);
                    assert(cs.take(i + 1).drop_last() =~= cs.take(i as int));
                }
                match &el.children[i] {
                    Node::Element(_) => {
                        n = n + 1;
                    },
                    Node::Text(_) => {},
                }
            }
            assert(cs.take(el.children.len() as int) =~= cs);
            n
        },
        Node::Text(_) => 0,
    }
}

} // verus!

verus! {

/// Text with `&`, `<`, `>` escaped.
pub open spec fn escape_html_spec(t: Seq<char>) -> Seq<char> {
    replace_char(replace_char(replace_char(t, '&', "&amp;"@), '<', "&lt;"@), '>', "&gt;"@)
}

/// Attribute text: as text, with `"` escaped too.
pub open spec fn escape_attr_spec(t: Seq<char>) -> Seq<char> {
    replace_char(escape_html_spec(t), '"', "&quot;"@)
}

pub fn escape_html(text: &str) -> (r: String)
    ensures
        r@ == escape_html_spec(text@),
{
    let a = replace(text, '&', "&amp;");
    let b = replace(a.as_str(), '<', "&lt;");
    replace(b.as_str(), '>', "&gt;")
}

pub fn escape_attr(text: &str) -> (r: String)
    ensures
        r@ == escape_attr_spec(text@),
{
    let e = escape_html(text);
    replace(e.as_str(), '"', "&quot;")
}

/// ` name="value"` for each attribute, in order.
pub open spec fn attrs_html(attrs: Seq<PairV>) -> Seq<char>
    decreases attrs.len(),
{
    if attrs.len() == 0 {
        Seq::empty()
    } else {
        attrs_html(attrs.drop_last()) + seq![' '] + attrs.last().0 + "=\""@ + escape_attr_spec(attrs.last().1) + seq!['"']
    }
}

/// `outerHTML`: a text node escaped; an element as its tags around its
/// children; the `#document` root as just its children.
pub open spec fn outer_html_spec(v: NodeV) -> Seq<char>
    decreases v,
{
    match v {
        NodeV::Text(t) => escape_html_spec(t),
        NodeV::Element { tag, attrs, children } => if tag == "#document"@ {
            children_html(children)
        } else {
            seq!['<'] + tag + attrs_html(attrs) + seq!['>'] + children_html(children) + "</"@ + tag + seq!['>']
        },
    }
}

pub open spec fn children_html(cs: Seq<NodeV>) -> Seq<char>
    decreases cs,
{
    if cs.len() == 0 {
        Seq::empty()
    } else {
        children_html(cs.drop_last()) + outer_html_spec(cs.last())
    }
}

/// `innerHTML`: a text node escaped; an element's children's markup.
pub open spec fn inner_html_spec(v: NodeV) -> Seq<char> {
    match v {
        NodeV::Text(t) => escape_html_spec(t),
        NodeV::Element { children, .. } => children_html(children),
    }
}

fn attrs_markup(attrs: &Vec<(String, String)>) -> (r: String)
    ensures
        r@ == attrs_html(attrs_view(attrs@)),
{
    let ghost av = attrs_view(attrs@);
    let mut out = String::new();
    for i in 0..attrs.len()
        invariant
            av == attrs_view(attrs@),
            out@ == attrs_html(av.take(i as int)),
    {
        assert(av.take(i + 1).drop_last() =~= av.take(i as int));
        push_char(&mut out, ' ');
        out.append(attrs[i].0.as_str());
        out.append("=\"");
        let v = escape_attr(attrs[i].1.as_str());
        out.append(v.as_str());
        push_char(&mut out, '"');
        assert(out@ =~= attrs_html(av.take(i as int)) + seq![' '] + av[i as int].0 + "=\""@ + escape_attr_spec(av[i as int].1) + seq!['"']);
    }
    assert(av.take(attrs.len() as int) =~= av);
    out
}

fn children_markup(node: &Node, children: &Vec<Node>) -> (r: String)
    requires
        node matches Node::Element(e) && e.children == *children,
    ensures
        r@ == children_html(nodes_view(children@)),
    decreases node, 0nat,
{
    proof {
        lemma_nodes_view(children@);
    }
    let ghost cs = nodes_view(children@);
    let mut out = String::new();
    assert(cs.take(0) =~= Seq::<NodeV>::empty());
    for i in 0..children.len()
        invariant
            node matches Node::Element(e) && e.children == *children,
            cs == nodes_view(children@),
            cs.len() == children@.len(),
            out@ == children_html(cs.take(i as int)),
    {
        proof {
            assert(decreases_to!(*node => (*node)->Element_0));
            assert(decreases_to!((*node)->Element_0 => (*node)->Element_0.children));
            assert(decreases_to!((*node)->Element_0.children => (*node)->Element_0.children@));
            assert(decreases_to!((*node)->Element_0.children@ => (*node)->Element_0.children@[i as int]));
            lemma_nodes_view(children@);
            assert(cs.take(i + 1).drop_last() =~= cs.take(i as int));
        }
        let h = outer_html(&children[i]);
        out.append(h.as_str());
    }
    assert(cs.take(children.len() as int) =~= cs);
    out
}

pub fn outer_html(node: &Node) -> (r: String)
    ensures
        r@ == outer_html_spec(node_view(*node)),
    decreases node, 1nat,
{
    match node {
        Node::Text(t) => escape_html(t.as_str()),
        Node::Element(el) => {
            let inner = children_markup(node, &el.children);
            if el.tag == String::from_str("#document") {
                return inner;
            }
            let mut out = String::new();
            push_char(&mut out, '<');
            out.append(el.tag.as_str());
            let a = attrs_markup(&el.attrs);
            out.append(a.as_str());
            push_char(&mut out, '>');
            out.append(inner.as_str());
            out.append("</");
            out.append(el.tag.as_str());
            push_char(&mut out, '>');
            out
        },
    }
}

pub fn inner_html(node: &Node) -> (r: String)
    ensures
        r@ == inner_html_spec(node_view(*node)),
{
    match node {
        Node::Text(t) => escape_html(t.as_str()),
        Node::Element(el) => children_markup(node, &el.children),
    }
}

} // verus!

verus! {

/// Sources of the inline scripts in document order: each `script` element
/// (any case) without a `src` attribute gives its children's text.
pub open spec fn scripts_of(v: NodeV) -> Seq<Seq<char>>
    decreases v,
{
    match v {
        NodeV::Text(_) => Seq::empty(),
        NodeV::Element { tag, attrs, children } => (if lower(tag) == "script"@ && !attr_has(attrs, "src"@) {
            seq![texts_of(children)]
        } else {
            Seq::empty()
        }) + scripts_in(children),
    }
}

pub open spec fn scripts_in(cs: Seq<NodeV>) -> Seq<Seq<char>>
    decreases cs,
{
    if cs.len() == 0 {
        Seq::empty()
    } else {
        scripts_in(cs.drop_last()) + scripts_of(cs.last())
    }
}

fn children_text(children: &Vec<Node>) -> (r: String)
    ensures
        r@ == texts_of(nodes_view(children@)),
{
    proof {
        lemma_nodes_view(children@);
    }
    let ghost cs = nodes_view(children@);
    let mut r = String::new();
    assert(cs.take(0) =~= Seq::<NodeV>::empty());
    for i in 0..children.len()
        invariant
            cs == nodes_view(children@),
            cs.len() == children@.len(),
            r@ == texts_of(cs.take(i as int)),
    {
        proof {
            lemma_nodes_view(children@);
            assert(cs.take(i + 1).drop_last() =~= cs.take(i as int));
        }
        let t = text_content_raw(&children[i]);
        r.append(t.as_str());
    }
    assert(cs.take(children.len() as int) =~= cs);
    r
}

fn collect_scripts(node: &Node, out: &mut Vec<String>)
    ensures
        strings_view(final(out)@) == strings_view(old(out)@) + scripts_of(node_view(*node)),
    decreases node,
{
    match node {
        Node::Text(_) => {
            assert(strings_view(out@) =~= strings_view(old(out)@) + Seq::<Seq<char>>::empty());
        },
        Node::Element(el) => {
            proof {
                lemma_nodes_view(el.children@);
            }
            let ghost cs = nodes_view(el.children@);
            let src = String::from_str("src");
            let lowered = to_ascii_lowercase(el.tag.as_str());
            let is_script = lowered == String::from_str("script");
            let has_src = match get_attr(&el.attrs, src.as_str()) {
                Some(_) => true,
                None => false,
            };
            proof {
                if attr_has(attrs_view(el.attrs@), "src"@) {
                    let k = choose|k: int| attr_pos(attrs_view(el.attrs@), "src"@, k);
                    assert(attr_get(attrs_view(el.attrs@), "src"@) is Some);
                }
            }
            if is_script && !has_src {
                let t = children_text(&el.children);
                out.push(t);
            }
            let ghost mid = strings_view(out@);
            assert(mid =~= strings_view(old(out)@) + (if lower(el.tag@) == "script"@ && !attr_has(attrs_view(el.attrs@), "src"@) {
                seq![texts_of(cs)]
            } else {
                Seq::<Seq<char>>::empty()
            }));
            assert(cs.take(0) =~= Seq::<NodeV>::empty());
            assert(mid =~= mid + scripts_in(cs.take(0)));
            for i in 0..el.children.len()
                invariant
                    *node == Node::Element(*el),
                    cs == nodes_view(el.children@),
                    cs.len() == el.children@.len(),
                    strings_view(out@) == mid + scripts_in(cs.take(i as int)),
            {
                proof {
                    assert(decreases_to!(*node => (*node)->Element_0));
                    assert(decreases_to!((*node)->Element_0 => (*node)->Element_0.children));
                    assert(decreases_to!((*node)->Element_0.children => (*node)->Element_0.children@));
                    assert(decreases_to!((*node)->Element_0.children@ => (*node)->Element_0.children@[i as int]));
                    lemma_nodes_view(el.children@);
                    assert(cs.take(i + 1).drop_last() =~= cs.take(i as int));
                }
                collect_scripts(&el.children[i], out);
                assert(strings_view(out@) =~= mid + scripts_in(cs.take(i + 1)));
            }
            assert(cs.take(el.children.len() as int) =~= cs);
        },
    }
}

/// Sources of the inline scripts below `node`, in document order.
pub fn collect_inline_scripts(node: &Node) -> (r: Vec<String>)
    ensures
        strings_view(r@) == scripts_of(node_view(*node)),
{
    let mut out: Vec<String> = Vec::new();
    collect_scripts(node, &mut out);
    assert(strings_view(out@) =~= scripts_of(node_view(*node)));
    out
}

/// The pieces of `s` between whitespace runs, as `str::split_whitespace`
/// (empty pieces are dropped).
pub open spec fn words(s: Seq<char>) -> Seq<Seq<char>> {
    split_ws(s).filter(|w: Seq<char>| w.len() > 0)
}

/// The pieces of `s` between single whitespace characters.
pub open spec fn split_ws(s: Seq<char>) -> Seq<Seq<char>>
    decreases s.len(),
{
    if s.len() == 0 {
        seq![Seq::empty()]
    } else {
        let rest = split_ws(s.drop_last());
        if is_space(s.last()) {
            rest.push(Seq::empty())
        } else {
            rest.update(rest.len() - 1, rest.last().push(s.last()))
        }
    }
}

pub proof fn lemma_split_ws_nonempty(s: Seq<char>)
    ensures
        split_ws(s).len() >= 1,
    decreases s.len(),
{
    if s.len() > 0 {
        lemma_split_ws_nonempty(s.drop_last());
    }
}

/// `w` is one of the whitespace-separated words of `s`.
pub open spec fn has_word(s: Seq<char>, w: Seq<char>) -> bool {
    w.len() > 0 && split_ws(s).contains(w)
}

pub fn has_word_exec(s: &str, w: &str) -> (r: bool)
    ensures
        r == has_word(s@, w@),
{
    let cs = chars_of(s);
    let target = String::from_str(w);
    if target.unicode_len() == 0 {
        return false;
    }
    let mut found = false;
    let mut cur: Vec<char> = Vec::new();
    let mut count: usize = 0;
    for i in 0..cs.len()
        invariant
            cs@ == s@,
            target@ == w@,
            w@.len() > 0,
            cur@ == split_ws(s@.take(i as int)).last(),
            found == split_ws(s@.take(i as int)).drop_last().contains(w@),
    {
        proof {
            lemma_split_ws_nonempty(s@.take(i as int));
            assert(s@.take(i + 1).drop_last() =~= s@.take(i as int));
        }
        let ghost before = split_ws(s@.take(i as int));
        if is_whitespace(cs[i]) {
            let piece = string_from(&cur);
            if piece == target {
                found = true;
            }
            cur = Vec::new();
            proof {
                let after = split_ws(s@.take(i + 1));
                assert(after == before.push(Seq::empty()));
                assert(after.drop_last() =~= before);
                assert(before =~= before.drop_last().push(before.last()));
                if found {
                    if before.drop_last().contains(w@) {
                        let k = choose|k: int| 0 <= k < before.drop_last().len() && before.drop_last()[k] == w@;
                        assert(before[k] == w@);
                    } else {
                        assert(before[before.len() - 1] == w@);
                    }
                } else {
                    if before.contains(w@) {
                        let k = choose|k: int| 0 <= k < before.len() && before[k] == w@;
                        if k < before.len() - 1 {
                            assert(before.drop_last()[k] == w@);
                        }
                    }
                }
            }
            assert(cur@ =~= Seq::<char>::empty());
        } else {
            cur.push(cs[i]);
            proof {
                let after = split_ws(s@.take(i + 1));
                assert(after.drop_last() =~= before.drop_last());
            }
        }
    }
    let last = string_from(&cur);
    proof {
        lemma_split_ws_nonempty(s@);
        assert(s@.take(cs.len() as int) =~= s@);
        let p = split_ws(s@);
        assert(p =~= p.drop_last().push(p.last()));
        if p.contains(w@) {
            let k = choose|k: int| 0 <= k < p.len() && p[k] == w@;
            if k < p.len() - 1 {
                assert(p.drop_last()[k] == w@);
            }
        }
        if p.drop_last().contains(w@) {
            let k = choose|k: int| 0 <= k < p.drop_last().len() && p.drop_last()[k] == w@;
            assert(p[k] == w@);
        }
    }
    found || last == target
}

/// What `querySelector` accepts in the page bindings: `#id`, `.class`, or a
/// tag name (any case), after trimming.
pub open spec fn simple_match(v: NodeV, selector: Seq<char>) -> bool {
    match v {
        NodeV::Text(_) => false,
        NodeV::Element { tag, attrs, .. } => {
            let s = trim(selector);
            if s.len() == 0 {
                false
            } else if s[0] == '#' {
                attr_get(attrs, "id"@) == Some(s.skip(1))
            } else if s[0] == '.' {
                match attr_get(attrs, "class"@) {
                    Some(c) => has_word(c, s.skip(1)),
                    None => false,
                }
            } else {
                lower(tag) == lower(s)
            }
        },
    }
}

pub fn node_matches_simple_selector(node: &Node, selector: &str) -> (r: bool)
    ensures
        r == simple_match(node_view(*node), selector@),
{
    let el = match node {
        Node::Element(el) => el,
        Node::Text(_) => return false,
    };
    let s = str_trim(selector);
    let sc = chars_of(s.as_str());
    if sc.len() == 0 {
        return false;
    }
    if sc[0] == '#' {
        let id = substring(&sc, 1, sc.len());
        assert(sc@.subrange(1, sc@.len() as int) =~= s@.skip(1));
        return match get_attr(&el.attrs, "id") {
            Some(v) => v == id,
            None => false,
        };
    }
    if sc[0] == '.' {
        let class = substring(&sc, 1, sc.len());
        assert(sc@.subrange(1, sc@.len() as int) =~= s@.skip(1));
        return match get_attr(&el.attrs, "class") {
            Some(v) => has_word_exec(v.as_str(), class.as_str()),
            None => false,
        };
    }
    let a = to_ascii_lowercase(el.tag.as_str());
    let b = to_ascii_lowercase(s.as_str());
    a == b
}


// ---------------------------------------------------------------------------
// Finding nodes by path.

/// What a node search looks for.
#[derive(Debug)]
pub enum Query {
    /// An element whose `id` attribute is the given text.
    Id(String),
    /// An element that the page bindings' simple selector accepts.
    Selector(String),
}

pub enum QueryV {
    Id(Seq<char>),
    Selector(Seq<char>),
}

pub open spec fn query_view(q: Query) -> QueryV {
    match q {
        Query::Id(s) => QueryV::Id(s@),
        Query::Selector(s) => QueryV::Selector(s@),
    }
}

pub open spec fn query_holds(v: NodeV, q: QueryV) -> bool {
    match q {
        QueryV::Id(id) => match v {
            NodeV::Element { attrs, .. } => attr_get(attrs, "id"@) == Some(id),
            NodeV::Text(_) => false,
        },
        QueryV::Selector(sel) => simple_match(v, sel),
    }
}

/// Paths, relative to `v`, of the nodes below and at `v` that satisfy `q`,
/// in document order.
pub open spec fn match_paths(v: NodeV, q: QueryV) -> Seq<Seq<usize>>
    decreases v,
{
    (if query_holds(v, q) { seq![Seq::<usize>::empty()] } else { Seq::empty() }) + match v {
        NodeV::Element { children, .. } => child_paths(children, q),
        NodeV::Text(_) => Seq::empty(),
    }
}

pub open spec fn child_paths(cs: Seq<NodeV>, q: QueryV) -> Seq<Seq<usize>>
    decreases cs,
{
    if cs.len() == 0 {
        Seq::empty()
    } else {
        child_paths(cs.drop_last(), q) + match_paths(cs.last(), q).map(
            |j: int, p: Seq<usize>| seq![(cs.len() - 1) as usize] + p,
        )
    }
}

pub open spec fn paths_view(s: Seq<Vec<usize>>) -> Seq<Seq<usize>> {
    s.map(|i: int, p: Vec<usize>| p@)
}

pub open spec fn prefixed(prefix: Seq<usize>, ps: Seq<Seq<usize>>) -> Seq<Seq<usize>> {
    ps.map(|i: int, p: Seq<usize>| prefix + p)
}

fn query_holds_exec(node: &Node, q: &Query) -> (r: bool)
    ensures
        r == query_holds(node_view(*node), query_view(*q)),
{
    match q {
        Query::Id(id) => match node {
            Node::Element(el) => match get_attr(&el.attrs, "id") {
                Some(v) => v == *id,
                None => false,
            },
            Node::Text(_) => false,
        },
        Query::Selector(sel) => node_matches_simple_selector(node, sel.as_str()),
    }
}

/// Appends the paths (below `path`) of the nodes at and below `node` that
/// satisfy `q`.
pub fn collect_paths(node: &Node, path: &mut Vec<usize>, q: &Query, out: &mut Vec<Vec<usize>>)
    requires
        old(path)@.len() + node_size(node_view(*node)) <= usize::MAX,
    ensures
        final(path)@ == old(path)@,
        paths_view(final(out)@) == paths_view(old(out)@) + prefixed(old(path)@, match_paths(node_view(*node), query_view(*q))),
    decreases node,
{
    let ghost base = path@;
    let ghost qv = query_view(*q);
    let ghost start = paths_view(out@);
    if query_holds_exec(node, q) {
        let p = path.clone();
        out.push(p);
        assert(paths_view(out@) =~= start.push(base));
    }
    let ghost own: Seq<Seq<usize>> = if query_holds(node_view(*node), qv) { seq![Seq::<usize>::empty()] } else { Seq::empty() };
    assert(paths_view(out@) =~= start + prefixed(base, own));
    match node {
        Node::Text(_) => {
            assert(match_paths(node_view(*node), qv) =~= own);
            assert(prefixed(base, own + Seq::empty()) =~= prefixed(base, own));
        },
        Node::Element(el) => {
            proof {
                lemma_nodes_view(el.children@);
            }
            let ghost cs = nodes_view(el.children@);
            let ghost mid = paths_view(out@);
            assert(cs.take(0) =~= Seq::<NodeV>::empty());
            assert(prefixed(base, child_paths(cs.take(0), qv)) =~= Seq::<Seq<usize>>::empty());
            for i in 0..el.children.len()
                invariant
                    *node == Node::Element(*el),
                    cs == nodes_view(el.children@),
                    cs.len() == el.children@.len(),
                    path@ == base,
                    qv == query_view(*q),
                    base.len() + node_size(node_view(*node)) <= usize::MAX,
                    paths_view(out@) == mid + prefixed(base, child_paths(cs.take(i as int), qv)),
            {
                proof {
                    assert(decreases_to!(*node => (*node)->Element_0));
                    assert(decreases_to!((*node)->Element_0 => (*node)->Element_0.children));
                    assert(decreases_to!((*node)->Element_0.children => (*node)->Element_0.children@));
                    assert(decreases_to!((*node)->Element_0.children@ => (*node)->Element_0.children@[i as int]));
                    lemma_nodes_view(el.children@);
                    assert(cs.take(i + 1).drop_last() =~= cs.take(i as int));
                    lemma_child_size(cs, i as int);
                }
                path.push(i);
                let ghost before = paths_view(out@);
                collect_paths(&el.children[i], path, q, out);
                path.pop();
                proof {
                    let sub = match_paths(cs[i as int], qv);
                    assert(prefixed(base.push(i), sub) =~= prefixed(base, sub.map(|j: int, p: Seq<usize>| seq![i] + p))) by {
                        assert forall|k: int| 0 <= k < sub.len() implies prefixed(base.push(i), sub)[k] == prefixed(base, sub.map(|j: int, p: Seq<usize>| seq![i] + p))[k] by {
                            assert(base.push(i) + sub[k] =~= base + (seq![i] + sub[k]));
                        }
                    }
                    assert((cs.take(i + 1).len() - 1) as usize == i);
                    assert(path@ =~= base);
                }
                assert(paths_view(out@) =~= mid + prefixed(base, child_paths(cs.take(i + 1), qv)));
            }
            assert(cs.take(el.children.len() as int) =~= cs);
            assert(prefixed(base, own + child_paths(cs, qv)) =~= prefixed(base, own) + prefixed(base, child_paths(cs, qv)));
        },
    }
}

proof fn lemma_child_size(cs: Seq<NodeV>, i: int)
    requires
        0 <= i < cs.len(),
    ensures
        node_size(cs[i]) + 1 <= node_size(NodeV::Element { tag: Seq::empty(), attrs: Seq::empty(), children: cs }),
{
    crate::document::lemma_nodes_size_take_le(cs, i + 1);
    crate::document::lemma_nodes_size_take(cs, i);
    assert(cs.take(i + 1).drop_last() =~= cs.take(i));
}

/// The path (below `path`) of the first node in document order at or below
/// `node` that satisfies `q`.
pub fn find_path(node: &Node, path: &mut Vec<usize>, q: &Query) -> (r: Option<Vec<usize>>)
    requires
        old(path)@.len() + node_size(node_view(*node)) <= usize::MAX,
    ensures
        final(path)@ == old(path)@,
        (r matches Some(p) ==> match_paths(node_view(*node), query_view(*q)).len() > 0
            && p@ == old(path)@ + match_paths(node_view(*node), query_view(*q))[0]),
        r is None ==> match_paths(node_view(*node), query_view(*q)).len() == 0,
{
    let mut out: Vec<Vec<usize>> = Vec::new();
    assert(paths_view(out@) =~= Seq::<Seq<usize>>::empty());
    collect_paths(node, path, q, &mut out);
    if out.len() > 0 {
        assert(paths_view(out@)[0] == out@[0]@);
        Some(out[0].clone())
    } else {
        None
    }
}

/// Path of the first element with the given `id`.
pub fn find_by_id(root: &Node, id: &str) -> (r: Option<Vec<usize>>)
    requires
        node_size(node_view(*root)) <= usize::MAX,
    ensures
        (r matches Some(p) ==> match_paths(node_view(*root), QueryV::Id(id@)).len() > 0
            && p@ == match_paths(node_view(*root), QueryV::Id(id@))[0]),
        r is None ==> match_paths(node_view(*root), QueryV::Id(id@)).len() == 0,
{
    let mut path: Vec<usize> = Vec::new();
    let q = Query::Id(String::from_str(id));
    let r = find_path(root, &mut path, &q);
    assert(Seq::<usize>::empty() + match_paths(node_view(*root), QueryV::Id(id@)).first() =~= match_paths(node_view(*root), QueryV::Id(id@)).first());
    r
}

/// Path of the first node that the simple selector accepts.
pub fn find_by_selector(root: &Node, selector: &str) -> (r: Option<Vec<usize>>)
    requires
        node_size(node_view(*root)) <= usize::MAX,
    ensures
        (r matches Some(p) ==> match_paths(node_view(*root), QueryV::Selector(selector@)).len() > 0
            && p@ == match_paths(node_view(*root), QueryV::Selector(selector@))[0]),
        r is None ==> match_paths(node_view(*root), QueryV::Selector(selector@)).len() == 0,
{
    let mut path: Vec<usize> = Vec::new();
    let q = Query::Selector(String::from_str(selector));
    let r = find_path(root, &mut path, &q);
    assert(Seq::<usize>::empty() + match_paths(node_view(*root), QueryV::Selector(selector@)).first() =~= match_paths(node_view(*root), QueryV::Selector(selector@)).first());
    r
}

/// Paths of all nodes that the simple selector accepts, in document order.
pub fn all_by_selector(root: &Node, selector: &str) -> (r: Vec<Vec<usize>>)
    requires
        node_size(node_view(*root)) <= usize::MAX,
    ensures
        paths_view(r@) == match_paths(node_view(*root), QueryV::Selector(selector@)),
{
    let mut path: Vec<usize> = Vec::new();
    let q = Query::Selector(String::from_str(selector));
    let mut out: Vec<Vec<usize>> = Vec::new();
    assert(paths_view(out@) =~= Seq::<Seq<usize>>::empty());
    collect_paths(root, &mut path, &q, &mut out);
    let ghost ms = match_paths(node_view(*root), QueryV::Selector(selector@));
    assert(prefixed(Seq::<usize>::empty(), ms) =~= ms) by {
        assert forall|k: int| 0 <= k < ms.len() implies prefixed(Seq::<usize>::empty(), ms)[k] == ms[k] by {
            assert(Seq::<usize>::empty() + ms[k] =~= ms[k]);
        }
    }
    assert(paths_view(out@) =~= ms);
    out
}

/// The document node that holds a parsed page's top-level nodes.
pub fn html_to_root(document: Document) -> (r: Node)
    ensures
        node_view(r) == (NodeV::Element { tag: "#document"@, attrs: Seq::empty(), children: document_view(document) }),
{
    let attrs: Vec<(String, String)> = Vec::new();
    assert(attrs_view(attrs@) =~= Seq::<PairV>::empty());
    Node::Element(Element { tag: String::from_str("#document"), attrs, children: document.children })
}

/// The document that a root node stands for: the children of a `#document`
/// node, or the node itself.
pub open spec fn root_document_spec(v: NodeV) -> Seq<NodeV> {
    match v {
        NodeV::Element { tag, children, .. } => if tag == "#document"@ { children } else { seq![v] },
        NodeV::Text(_) => seq![v],
    }
}

pub fn root_to_document(root: &Node) -> (r: Document)
    ensures
        document_view(r) == root_document_spec(node_view(*root)),
{
    match root {
        Node::Element(el) => {
            if el.tag == String::from_str("#document") {
                let mut children: Vec<Node> = Vec::new();
                proof {
                    lemma_nodes_view(el.children@);
                }
                for i in 0..el.children.len()
                    invariant
                        children.len() == i,
                        i <= el.children.len(),
                        forall|j: int| 0 <= j < i ==> node_view(#[trigger] children@[j]) == node_view(el.children@[j]),
                {
                    children.push(clone_node(&el.children[i]));
                }
                proof {
                    lemma_nodes_view(el.children@);
                    lemma_nodes_view_ext(children@, nodes_view(el.children@));
                }
                return Document { children };
            }
        },
        Node::Text(_) => {},
    }
    let mut children: Vec<Node> = Vec::new();
    children.push(clone_node(root));
    proof {
        lemma_nodes_view_ext(children@, seq![node_view(*root)]);
    }
    Document { children }
}


// ---------------------------------------------------------------------------
// Node properties for the page bindings.

/// A property assignment on a node object.
#[derive(Debug)]
pub enum PropertyWrite {
    /// `textContent` / `innerText`.
    Text(String),
    /// `id`.
    Id(String),
    /// `className`.
    ClassName(String),
    /// `value`.
    Value(String),
    /// `checked` (the truthiness of the assigned value).
    Checked(bool),
}

pub open spec fn property_edit_spec(w: PropertyWrite) -> EditV {
    match w {
        PropertyWrite::Text(t) => EditV::SetText(t@),
        PropertyWrite::Id(v) => EditV::SetAttr("id"@, v@),
        PropertyWrite::ClassName(v) => EditV::SetAttr("class"@, v@),
        PropertyWrite::Value(v) => EditV::SetAttr("value"@, v@),
        PropertyWrite::Checked(b) => if b { EditV::SetAttr("checked"@, "checked"@) } else { EditV::RemoveAttr("checked"@) },
    }
}

/// The edit that a property assignment makes: text replaces a text node's
/// text or an element's children; the others set or drop attributes.
pub fn property_edit(w: PropertyWrite) -> (r: Edit)
    ensures
        edit_view(r) == property_edit_spec(w),
{
    match w {
        PropertyWrite::Text(t) => Edit::SetText(t),
        PropertyWrite::Id(v) => Edit::SetAttr(String::from_str("id"), v),
        PropertyWrite::ClassName(v) => Edit::SetAttr(String::from_str("class"), v),
        PropertyWrite::Value(v) => Edit::SetAttr(String::from_str("value"), v),
        PropertyWrite::Checked(b) => if b {
            Edit::SetAttr(String::from_str("checked"), String::from_str("checked"))
        } else {
            Edit::RemoveAttr(String::from_str("checked"))
        },
    }
}

/// Applies a property assignment to the node at `path`.
pub fn write_property(root: &mut Node, path: &[usize], w: PropertyWrite)
    ensures
        node_view(*final(root)) == edit_at(node_view(*old(root)), path@, property_edit_spec(w)),
{
    let ghost wv = property_edit_spec(w);
    let e = property_edit(w);
    edit_node_at(root, path, e);
}

/// The element-only properties of a node object.
#[derive(Debug, Clone, PartialEq, Eq)]
pub struct ElementFields {
    pub id: String,
    pub class_name: String,
    pub value: String,
    pub checked: bool,
}

/// The plain properties of a node object.
#[derive(Debug, Clone, PartialEq, Eq)]
pub struct NodeProps {
    /// 3 for text, 9 for the document node, 1 for other elements.
    pub node_type: u8,
    pub node_name: String,
    pub tag_name: String,
    pub text_content: String,
    pub element: Option<ElementFields>,
}

pub open spec fn attr_or_empty(attrs: Seq<PairV>, name: Seq<char>) -> Seq<char> {
    match attr_get(attrs, name) {
        Some(v) => v,
        None => Seq::empty(),
    }
}

pub open spec fn node_type_spec(v: NodeV) -> u8 {
    match v {
        NodeV::Text(_) => 3,
        NodeV::Element { tag, .. } => if tag == "#document"@ { 9 } else { 1 },
    }
}

/// Whether `p` holds the plain properties of `v`.
pub open spec fn props_of(v: NodeV, p: NodeProps) -> bool {
    &&& p.node_type == node_type_spec(v)
    &&& p.node_name@ == node_name_spec(v)
    &&& p.tag_name@ == upper(node_name_spec(v))
    &&& p.text_content@ == text_of(v)
    &&& match v {
        NodeV::Text(_) => p.element is None,
        NodeV::Element { attrs, .. } => p.element matches Some(f) && f.id@ == attr_or_empty(attrs, "id"@)
            && f.class_name@ == attr_or_empty(attrs, "class"@) && f.value@ == attr_or_empty(attrs, "value"@)
            && f.checked == attr_has(attrs, "checked"@),
    }
}

fn get_attr_or_empty(attrs: &Vec<(String, String)>, name: &str) -> (r: String)
    ensures
        r@ == attr_or_empty(attrs_view(attrs@), name@),
{
    match get_attr(attrs, name) {
        Some(v) => v,
        None => String::new(),
    }
}

/// The plain properties of a node, as its script object shows them.
pub fn node_props(node: &Node) -> (r: NodeProps)
    ensures
        props_of(node_view(*node), r),
{
    let name = node_name(node);
    let tag_name = to_ascii_uppercase(name.as_str());
    let text_content = text_content_raw(node);
    match node {
        Node::Text(_) => NodeProps { node_type: 3, node_name: name, tag_name, text_content, element: None },
        Node::Element(el) => {
            let node_type: u8 = if el.tag == String::from_str("#document") { 9 } else { 1 };
            let checked = match get_attr(&el.attrs, "checked") {
                Some(_) => true,
                None => false,
            };
            proof {
                if attr_has(attrs_view(el.attrs@), "checked"@) {
                    assert(attr_get(attrs_view(el.attrs@), "checked"@) is Some);
                }
            }
            let fields = ElementFields {
                id: get_attr_or_empty(&el.attrs, "id"),
                class_name: get_attr_or_empty(&el.attrs, "class"),
                value: get_attr_or_empty(&el.attrs, "value"),
                checked,
            };
            NodeProps { node_type, node_name: name, tag_name, text_content, element: Some(fields) }
        },
    }
}


/// What turning a script value into a node reads of it: its `nodeName`,
/// `id` and `className` where they are strings, its `textContent` as text,
/// and the value's own text.
#[derive(Debug)]
pub struct ObjectFields {
    pub node_name: Option<String>,
    pub id: Option<String>,
    pub class_name: Option<String>,
    pub text_content: String,
    pub display: String,
}

pub open spec fn nonempty_attr(name: Seq<char>, v: Option<String>) -> Seq<PairV> {
    match v {
        Some(x) => if x@.len() > 0 { seq![(name, x@)] } else { Seq::empty() },
        None => Seq::empty(),
    }
}

/// An element named by `nodeName` (lower-cased, other than `#text` and
/// `#document`), with its non-empty `id` and `class` and its text as the
/// only child; anything else becomes a text node of the value's text.
pub open spec fn node_from_object_spec(f: ObjectFields) -> NodeV {
    match f.node_name {
        Some(tag) => if tag@ != "#text"@ && tag@ != "#document"@ {
            NodeV::Element {
                tag: lower(tag@),
                attrs: nonempty_attr("id"@, f.id) + nonempty_attr("class"@, f.class_name),
                children: if f.text_content@.len() == 0 { Seq::empty() } else { seq![NodeV::Text(f.text_content@)] },
            }
        } else {
            NodeV::Text(f.display@)
        },
        None => NodeV::Text(f.display@),
    }
}

pub fn node_from_object(f: ObjectFields) -> (r: Node)
    ensures
        node_view(r) == node_from_object_spec(f),
{
    let ghost fv = node_from_object_spec(f);
    let ObjectFields { node_name, id, class_name, text_content, display } = f;
    match node_name {
        Some(tag) => {
            if !(tag == String::from_str("#text")) && !(tag == String::from_str("#document")) {
                let mut attrs: Vec<(String, String)> = Vec::new();
                match id {
                    Some(x) => if x.unicode_len() > 0 {
                        attrs.push((String::from_str("id"), x));
                    },
                    None => {},
                }
                let ghost first = attrs_view(attrs@);
                match class_name {
                    Some(x) => if x.unicode_len() > 0 {
                        attrs.push((String::from_str("class"), x));
                    },
                    None => {},
                }
                let mut children: Vec<Node> = Vec::new();
                if text_content.unicode_len() > 0 {
                    children.push(Node::Text(text_content));
                }
                let ghost cv = nodes_view(children@);
                proof {
                    lemma_nodes_view(children@);
                }
                let r = Node::Element(Element { tag: to_ascii_lowercase(tag.as_str()), attrs, children });
                assert(node_view(r) == fv) by {
                    match fv {
                        NodeV::Element { tag: t2, attrs: a2, children: c2 } => {
                            assert(attrs_view(r->Element_0.attrs@) =~= a2);
                            assert(cv =~= c2);
                        },
                        _ => {},
                    }
                }
                return r;
            }
            Node::Text(display)
        },
        None => Node::Text(display),
    }
}


/// An edit through a path changes the node at the path as `apply_edit`
/// says; where no node is at the path, the tree is unchanged.
pub proof fn lemma_edit_at_target(v: NodeV, path: Seq<usize>, e: EditV)
    ensures
        node_at(v, path) matches Some(n) ==> node_at(edit_at(v, path, e), path) == Some(apply_edit(n, e)),
        node_at(v, path) is None ==> edit_at(v, path, e) == v,
    decreases path.len(),
{
    if path.len() > 0 {
        match v {
            NodeV::Element { tag, attrs, children } => {
                if path[0] < children.len() {
                    lemma_edit_at_target(children[path[0] as int], path.drop_first(), e);
                    let nc = children.update(path[0] as int, edit_at(children[path[0] as int], path.drop_first(), e));
                    assert(nc[path[0] as int] == edit_at(children[path[0] as int], path.drop_first(), e));
                    if node_at(v, path) is None {
                        assert(nc =~= children);
                    }
                }
            },
            NodeV::Text(_) => {},
        }
    }
}

/// A property assignment on the node at `path`: `value`, `id` and
/// `className` set that attribute; `checked` sets it to `checked` or drops
/// it; text replaces a text node's text or an element's children by one
/// text node. Where no node is at `path`, nothing changes.
pub proof fn law_property_write(v: NodeV, path: Seq<usize>, w: PropertyWrite)
    ensures
        node_at(v, path) matches Some(n) ==> node_at(edit_at(v, path, property_edit_spec(w)), path)
            == Some(apply_edit(n, property_edit_spec(w))),
        node_at(v, path) is None ==> edit_at(v, path, property_edit_spec(w)) == v,
        (node_at(v, path) matches Some(NodeV::Element { tag, attrs, children }) ==> node_at(edit_at(v, path, property_edit_spec(w)), path) == Some(
            match w {
                PropertyWrite::Text(t) => NodeV::Element { tag, attrs, children: seq![NodeV::Text(t@)] },
                PropertyWrite::Id(x) => NodeV::Element { tag, attrs: attr_set(attrs, "id"@, x@), children },
                PropertyWrite::ClassName(x) => NodeV::Element { tag, attrs: attr_set(attrs, "class"@, x@), children },
                PropertyWrite::Value(x) => NodeV::Element { tag, attrs: attr_set(attrs, "value"@, x@), children },
                PropertyWrite::Checked(b) => if b {
                    NodeV::Element { tag, attrs: attr_set(attrs, "checked"@, "checked"@), children }
                } else {
                    NodeV::Element { tag, attrs: attr_remove(attrs, "checked"@), children }
                },
            })),
{
    lemma_edit_at_target(v, path, property_edit_spec(w));
}


/// Escaping works character by character: the escape of a concatenation is
/// the concatenation of the escapes.
pub proof fn law_escape_html_concat(a: Seq<char>, b: Seq<char>)
    ensures
        escape_html_spec(a + b) == escape_html_spec(a) + escape_html_spec(b),
{
    crate::text::lemma_replace_char_concat(a, b, '&', "&amp;"@);
    crate::text::lemma_replace_char_concat(replace_char(a, '&', "&amp;"@), replace_char(b, '&', "&amp;"@), '<', "&lt;"@);
    crate::text::lemma_replace_char_concat(
        replace_char(replace_char(a, '&', "&amp;"@), '<', "&lt;"@),
        replace_char(replace_char(b, '&', "&amp;"@), '<', "&lt;"@),
        '>',
        "&gt;"@,
    );
}

/// Each character escapes on its own: `&` to `&amp;`, `<` to `&lt;`, `>` to
/// `&gt;`, and every other character to itself.
pub proof fn law_escape_html_char(x: char)
    ensures
        escape_html_spec(seq![x]) == if x == '&' {
            "&amp;"@
        } else if x == '<' {
            "&lt;"@
        } else if x == '>' {
            "&gt;"@
        } else {
            seq![x]
        },
{
    reveal_strlit("&amp;");
    reveal_strlit("&lt;");
    reveal_strlit("&gt;");
    crate::text::lemma_replace_char_single(x, '&', "&amp;"@);
    if x == '&' {
        crate::text::lemma_replace_char_absent("&amp;"@, '<', "&lt;"@);
        crate::text::lemma_replace_char_absent("&amp;"@, '>', "&gt;"@);
    } else {
        crate::text::lemma_replace_char_single(x, '<', "&lt;"@);
        if x == '<' {
            crate::text::lemma_replace_char_absent("&lt;"@, '>', "&gt;"@);
        } else {
            crate::text::lemma_replace_char_single(x, '>', "&gt;"@);
        }
    }
}

} // verus!

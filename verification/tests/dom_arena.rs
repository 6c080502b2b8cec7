use tetherscript::browser_dom::{DomArena, DomNodeKind};
use tetherscript::document::{Document, Element, Node};

fn text(t: &str) -> Node {
    Node::Text(t.to_string())
}

fn el(tag: &str, attrs: &[(&str, &str)], children: Vec<Node>) -> Node {
    Node::Element(Element {
        tag: tag.to_string(),
        attrs: attrs.iter().map(|(k, v)| (k.to_string(), v.to_string())).collect(),
        children,
    })
}

fn attr<'a>(attrs: &'a [(String, String)], name: &str) -> Option<&'a str> {
    attrs.iter().find(|(k, _)| k == name).map(|(_, v)| v.as_str())
}

#[test]
fn converts_document_to_parent_child_arena() {
    // <main id="app"><h1>Hello</h1><p>World</p></main>
    let document = Document {
        children: vec![el(
            "main",
            &[("id", "app")],
            vec![el("h1", &[], vec![text("Hello")]), el("p", &[], vec![text("World")])],
        )],
    };
    let arena = DomArena::from_document(&document);

    assert_eq!(arena.len(), 5);
    let main = arena.root_ids()[0];
    assert_eq!(arena.parent(main), None);
    assert_eq!(arena.element(main).unwrap().tag, "main");
    assert_eq!(attr(&arena.element(main).unwrap().attrs, "id").unwrap(), "app");

    let children = arena.children(main).unwrap();
    assert_eq!(children.len(), 2);
    assert_eq!(arena.parent(children[0]), Some(main));
    assert_eq!(arena.element(children[0]).unwrap().tag, "h1");
    assert_eq!(arena.element(children[1]).unwrap().tag, "p");
}

#[test]
fn round_trips_back_to_recursive_document() {
    // <section class="panel"><p data-kind="intro">Hello <em>Rust</em></p></section>
    let document = Document {
        children: vec![el(
            "section",
            &[("class", "panel")],
            vec![el(
                "p",
                &[("data-kind", "intro")],
                vec![text("Hello "), el("em", &[], vec![text("Rust")])],
            )],
        )],
    };
    let arena = DomArena::from_document(&document);

    assert_eq!(arena.to_document(), document);
}

#[test]
fn query_selector_returns_matching_node_ids() {
    // <div id="app"><p class="lead">Intro</p><p data-kind="body">Body</p></div>
    let document = Document {
        children: vec![el(
            "div",
            &[("id", "app")],
            vec![
                el("p", &[("class", "lead")], vec![text("Intro")]),
                el("p", &[("data-kind", "body")], vec![text("Body")]),
            ],
        )],
    };
    let arena = DomArena::from_document(&document);

    let lead = arena.query_selector("#app > p.lead");
    assert_eq!(lead.len(), 1);
    assert_eq!(arena.element(lead[0]).unwrap().tag, "p");
    assert_eq!(arena.text(arena.children(lead[0]).unwrap()[0]), Some("Intro"));

    let body = arena.query_selector(r#"p[data-kind="body"]"#);
    assert_eq!(body.len(), 1);
    assert_eq!(arena.text(arena.children(body[0]).unwrap()[0]), Some("Body"));
}

#[test]
fn duplicate_subtrees_map_to_distinct_ids_in_document_order() {
    // <ul><li>Same</li><li>Same</li></ul>
    let document = Document {
        children: vec![el(
            "ul",
            &[],
            vec![el("li", &[], vec![text("Same")]), el("li", &[], vec![text("Same")])],
        )],
    };
    let arena = DomArena::from_document(&document);

    let items = arena.query_selector("li");
    assert_eq!(items.len(), 2);
    assert_ne!(items[0], items[1]);
    assert!(items[0] < items[1]);
}

#[test]
fn arena_builds_by_hand_and_reports_kinds() {
    let mut arena = DomArena::new();
    assert!(arena.is_empty());
    let root = arena.add_element(None, "div", vec![("id".to_string(), "r".to_string())]);
    let t = arena.add_text(Some(root), "hi");
    assert_eq!(arena.len(), 2);
    assert_eq!(root.index(), 0);
    assert_eq!(t.index(), 1);
    assert_eq!(arena.parent(t), Some(root));
    assert_eq!(arena.children(root).unwrap(), &[t]);
    assert!(matches!(arena.kind(t), Some(DomNodeKind::Text(s)) if s == "hi"));
    assert_eq!(arena.text(t), Some("hi"));
    assert!(arena.element(t).is_none());
    assert!(arena.text(root).is_none());
}

#[test]
fn query_selector_descendant_and_selector_lists() {
    // <div class="a"><section><p>x</p></section></div><div><p>y</p></div>
    let document = Document {
        children: vec![
            el("div", &[("class", "a b")], vec![el("section", &[], vec![el("p", &[], vec![text("x")])])]),
            el("div", &[], vec![el("p", &[], vec![text("y")])]),
        ],
    };
    let arena = DomArena::from_document(&document);
    let hits = arena.query_selector(".a p");
    assert_eq!(hits.len(), 1);
    assert_eq!(arena.text(arena.children(hits[0]).unwrap()[0]), Some("x"));
    // `>` needs a direct parent.
    assert_eq!(arena.query_selector(".a > p").len(), 0);
    // A list matches either selector, in document order.
    let both = arena.query_selector("section, P");
    assert_eq!(both.len(), 3);
    assert!(both[0] < both[1] && both[1] < both[2]);
    // `*` and attribute presence.
    assert_eq!(arena.query_selector("div[class]").len(), 1);
    assert_eq!(arena.query_selector("*").len(), 5);
    // Malformed selectors match nothing.
    assert_eq!(arena.query_selector("p >").len(), 0);
    assert_eq!(arena.query_selector("[x").len(), 0);
}

#[test]
fn duplicate_matches_claim_first_equal_node() {
    // <div><p>x</p></div><div class="a"><p>x</p></div>: only the second p
    // matches, and it is handed the first equal subtree.
    let document = Document {
        children: vec![
            el("div", &[], vec![el("p", &[], vec![text("x")])]),
            el("div", &[("class", "a")], vec![el("p", &[], vec![text("x")])]),
        ],
    };
    let arena = DomArena::from_document(&document);
    let hits = arena.query_selector(".a p");
    assert_eq!(hits.len(), 1);
    assert_eq!(hits[0].index(), 1);
}

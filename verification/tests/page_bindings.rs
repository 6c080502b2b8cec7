// Page-script scenarios, each run directly on the library's models of what
// the page script reaches: the document tree, the event registry, the timer
// queue, storage, URLs and fetch. No script is evaluated; each test performs
// the script's steps through the library's functions and checks the values
// the script would print.

use tetherscript::document::{Document, Element, Node};
use tetherscript::dom_tree::{
    all_by_selector, append_child, bubble_path, child_element_count, collect_inline_scripts,
    edit_node_at, find_by_id, find_by_selector, get_attr, get_node, html_to_root, parent_path,
    root_to_document, text_content_raw, Edit, InsertPosition,
};
use tetherscript::fetch::{
    construct_response, fetch_stub, headers_object, FetchInit, JsonStub, ResponseInit,
};
use tetherscript::report::compatibility_report_to_value;
use tetherscript::storage::Storage;
use tetherscript::timers::{DrainStep, TimerQueue};
use tetherscript::url::{location_object, navigator_object, resolve_url, url_object, SearchParams};
use tetherscript::value::Value;

fn text(t: &str) -> Node {
    Node::Text(t.to_string())
}

fn el(tag: &str, attrs: &[(&str, &str)], children: Vec<Node>) -> Node {
    Node::Element(Element {
        tag: tag.to_string(),
        attrs: attrs.iter().map(|(k, v)| (k.to_string(), v.to_string())).collect(),
        children,
    })
}

fn page(children: Vec<Node>) -> Node {
    html_to_root(Document { children })
}

fn attrs_of(node: &Node) -> &Vec<(String, String)> {
    match node {
        Node::Element(e) => &e.attrs,
        Node::Text(_) => panic!("expected element"),
    }
}

fn child_count(node: &Node) -> usize {
    match node {
        Node::Element(e) => e.children.len(),
        Node::Text(_) => 0,
    }
}

fn report_strings(report: Value) -> Vec<String> {
    let Value::List(items) = report else {
        panic!("expected list");
    };
    items
        .iter()
        .map(|v| match v {
            Value::Str(s) => s.to_string(),
            other => tetherscript::value::display(other),
        })
        .collect()
}

#[test]
fn inline_scripts_can_read_document_and_console_log() {
    // <main id='app'><h1>Hello</h1><script>...</script></main>
    let source = "console.log(document.getElementById('app').children.length); document.querySelector('h1').textContent;";
    let root = page(vec![el(
        "main",
        &[("id", "app")],
        vec![el("h1", &[], vec![text("Hello")]), el("script", &[], vec![text(source)])],
    )]);
    assert_eq!(collect_inline_scripts(&root), vec![source.to_string()]);
    let app = find_by_id(&root, "app").unwrap();
    assert_eq!(child_count(get_node(&root, &app).unwrap()).to_string(), "2");
    let h1 = find_by_selector(&root, "h1").unwrap();
    assert_eq!(text_content_raw(get_node(&root, &h1).unwrap()), "Hello");
}

#[test]
fn eval_with_dom_exposes_selectors_and_attributes() {
    let mut root = page(vec![el("p", &[("class", "note"), ("id", "x")], vec![text("Hi")])]);
    let p = find_by_selector(&root, ".note").unwrap();
    edit_node_at(&mut root, &p, Edit::SetAttr("data-ok".to_string(), "yes".to_string()));
    let node = get_node(&root, &p).unwrap();
    let value = format!("{}:{}", get_attr(attrs_of(node), "id").unwrap(), text_content_raw(node));
    assert_eq!(value, "x:Hi");
    let document = root_to_document(&root);
    match &document.children[0] {
        Node::Element(el) => assert_eq!(get_attr(&el.attrs, "data-ok"), Some("yes".to_string())),
        Node::Text(_) => panic!("expected element"),
    }
}

#[test]
fn dom_property_assignment_and_mutation_apis_update_document() {
    let mut root = page(vec![el("main", &[("id", "app")], vec![el("p", &[], vec![text("old")])])]);
    let app = find_by_id(&root, "app").unwrap();
    let p = find_by_selector(&root, "p").unwrap();
    edit_node_at(&mut root, &p, Edit::SetText("new".to_string()));
    let mut span = el("span", &[], vec![]);
    tetherscript::dom_tree::apply(&mut span, Edit::SetText("!".to_string()));
    append_child(&mut root, &app, span, InsertPosition::Append);
    assert_eq!(child_count(get_node(&root, &find_by_id(&root, "app").unwrap()).unwrap()), 2);
    let document = root_to_document(&root);
    let text = document.children.iter().map(text_content_raw).collect::<Vec<_>>().join(" ");
    assert!(text.contains("new"));
    assert!(text.contains("!"));
}

#[test]
fn events_bubble_with_current_target_and_default_prevention() {
    // <form id='form'><button id='go'>Send</button></form>: a click on the
    // button reaches the button, then the form, then the document.
    let root = page(vec![el("form", &[("id", "form")], vec![el("button", &[("id", "go")], vec![text("Send")])])]);
    let go = find_by_id(&root, "go").unwrap();
    let path = bubble_path(&go);
    let ids: Vec<Option<String>> = path
        .iter()
        .map(|p| get_attr(attrs_of(get_node(&root, p).unwrap()), "id"))
        .collect();
    assert_eq!(ids, vec![Some("go".to_string()), Some("form".to_string()), None]);
}

#[test]
fn inline_handler_false_prevents_default_and_parent_node_links_parent() {
    let root = page(vec![el("div", &[("id", "outer")], vec![el("button", &[("id", "go")], vec![text("Send")])])]);
    let go = find_by_id(&root, "go").unwrap();
    let parent = parent_path(&go).unwrap();
    assert_eq!(get_attr(attrs_of(get_node(&root, &parent).unwrap()), "id"), Some("outer".to_string()));
}

#[test]
fn form_value_and_checked_properties_reflect_and_update_attributes() {
    let mut root = page(vec![
        el("input", &[("id", "name"), ("value", "Riley")], vec![]),
        el("input", &[("id", "agree"), ("checked", "")], vec![]),
    ]);
    let name = find_by_id(&root, "name").unwrap();
    let agree = find_by_id(&root, "agree").unwrap();
    let value = |root: &Node| get_attr(attrs_of(get_node(root, &name).unwrap()), "value").unwrap_or_default();
    let checked = |root: &Node| get_attr(attrs_of(get_node(root, &agree).unwrap()), "checked").is_some();
    let before = format!("{}:{}", value(&root), checked(&root));
    edit_node_at(&mut root, &name, Edit::SetAttr("value".to_string(), "Casey".to_string()));
    edit_node_at(&mut root, &agree, Edit::RemoveAttr("checked".to_string()));
    let after = format!("{}:{}:{}:{}", value(&root), value(&root), checked(&root), checked(&root));
    assert_eq!(format!("{before}|{after}"), "Riley:true|Casey:Casey:false:false");
}

#[test]
fn location_and_navigator_globals_are_available() {
    let nav = navigator_object("linux");
    let location = location_object("http://localhost/");
    let ok = !nav.user_agent.is_empty()
        && location.parts.pathname == "/"
        && location.parts.origin == "http://localhost"
        && nav.language == "en-US";
    assert!(ok);
}

#[test]
fn url_and_url_search_params_are_available() {
    let href = resolve_url("/docs/page?x=1#top", "https://example.com/root/index.html");
    let u = url_object(&href);
    let mut p = SearchParams::new("a=1&b=two+words");
    p.set("a", "2");
    p.append("c", "3");
    let value = format!(
        "{}|{}|{}|{}|{}|{}",
        u.parts.origin,
        u.parts.pathname,
        u.search_params.as_ref().unwrap().get("x").unwrap(),
        p.get("b").unwrap(),
        p.has("c"),
        p.to_string()
    );
    assert_eq!(value, "https://example.com|/docs/page|1|two words|true|b=two+words&a=2&c=3");
}

#[test]
fn location_assign_and_replace_update_location_fields() {
    let mut location = location_object("http://localhost/");
    location.assign("/next?ok=1#frag");
    let first = format!(
        "{}|{}|{}|{}",
        location.parts.href, location.parts.pathname, location.parts.search, location.parts.hash
    );
    location.replace("child");
    assert_eq!(
        format!("{}>{}", first, location.parts.href),
        "http://localhost/next?ok=1#frag|/next|?ok=1|#frag>http://localhost/child"
    );
}

#[test]
fn classic_for_loop_supports_node_list_iteration() {
    let root = page(vec![el(
        "ul",
        &[],
        vec![el("li", &[], vec![text("A")]), el("li", &[], vec![text("B")]), el("li", &[], vec![text("C")])],
    )]);
    let items = all_by_selector(&root, "li");
    let mut text = String::new();
    for i in 0..items.len() {
        text = text + &text_content_raw(get_node(&root, &items[i]).unwrap());
    }
    assert_eq!(text, "ABC");
}

#[test]
fn set_timeout_callbacks_drain_after_script_fifo() {
    let mut timers: TimerQueue<&str> = TimerQueue::new();
    timers.set_timeout("A", vec![]);
    timers.set_timeout("B", vec![]);
    let mut order = String::from("sync");
    assert_eq!(order, "sync");
    order.clear();
    let mut drained = 0;
    loop {
        match timers.drain_step(drained) {
            DrainStep::Run(task) => {
                order.push_str(task.callback);
                drained += 1;
            }
            DrainStep::Done => break,
            DrainStep::LimitExceeded(e) => panic!("{e}"),
        }
    }
    assert_eq!(order, "AB");
}

#[test]
fn clear_timeout_cancels_pending_callback_and_timeout_args_work() {
    let mut timers: TimerQueue<&str> = TimerQueue::new();
    let first = timers.set_timeout("bad", vec![]);
    timers.clear_timeout(first);
    timers.set_timeout("args", vec!["O", "K"]);
    let mut console = Vec::new();
    let mut drained = 0;
    loop {
        match timers.drain_step(drained) {
            DrainStep::Run(task) => {
                assert_eq!(task.callback, "args");
                console.push(format!("en-US:{}", task.args.concat()));
                drained += 1;
            }
            DrainStep::Done => break,
            DrainStep::LimitExceeded(e) => panic!("{e}"),
        }
    }
    assert_eq!(console, vec!["en-US:OK".to_string()]);
}

fn item(s: &Storage, key: &str) -> String {
    s.get_item(key).unwrap_or_else(|| "null".to_string())
}

fn key(s: &Storage, i: usize) -> String {
    s.key(i).unwrap_or_else(|| "null".to_string())
}

#[test]
fn local_storage_implements_minimal_storage_api() {
    let mut s = Storage::new();
    s.set_item("a", "1");
    s.set_item("b", "two");
    s.set_item("a", "one");
    let before = format!("{}:{}:{}:{}", s.length(), key(&s, 0), item(&s, "a"), item(&s, "missing"));
    s.remove_item("b");
    let after = format!("{}:{}", s.length(), key(&s, 1));
    s.clear();
    let value = format!("{}|{}|{}:{}", before, after, s.length(), item(&s, "a"));
    assert_eq!(value, "2:a:one:null|1:null|0:null");
}

#[test]
fn session_storage_is_separate_from_local_storage_and_per_eval() {
    let mut local = Storage::new();
    let mut session = Storage::new();
    local.set_item("shared", "local");
    session.set_item("shared", "session");
    let value = format!("{}:{}:{}:{}", item(&local, "shared"), item(&session, "shared"), local.length(), session.length());
    assert_eq!(value, "local:session:1:1");

    let local = Storage::new();
    let session = Storage::new();
    assert!(local.get_item("shared").is_none() && session.length() == 0);
}

#[test]
fn compatibility_report_lists_storage_apis() {
    let features = report_strings(compatibility_report_to_value(&[]).unwrap());
    assert!(features.contains(&"localStorage".to_string()));
    assert!(features.contains(&"sessionStorage".to_string()));
    assert!(features.contains(&"Storage.length".to_string()));
}

#[test]
fn compatibility_report_lists_fetch_response_apis() {
    let features = report_strings(compatibility_report_to_value(&[]).unwrap());
    assert!(features.contains(&"fetch".to_string()));
    assert!(features.contains(&"Headers".to_string()));
    assert!(features.contains(&"Response".to_string()));
    assert!(features.contains(&"Response.text".to_string()));
    assert!(features.contains(&"Response.json".to_string()));
}

fn json_text(j: &JsonStub) -> String {
    match j {
        JsonStub::Null => "null".to_string(),
        JsonStub::Bool(b) => b.to_string(),
        JsonStub::Number(n) => n.clone(),
        JsonStub::Str(s) => s.clone(),
    }
}

#[test]
fn fetch_returns_response_like_object_with_helpers() {
    let r = fetch_stub(
        "/api",
        Some(FetchInit {
            method: Some("post".to_string()),
            body: Some("123".to_string()),
            status: None,
            headers: Some(vec![("X-Test".to_string(), "yes".to_string())]),
        }),
    );
    let value = format!(
        "{}:{}:{}:{}:{}:{}:{}:{}",
        r.ok,
        r.status,
        r.status_text,
        r.url,
        r.text(),
        json_text(&r.json()),
        r.headers.get("x-test").unwrap(),
        r.headers.get("CONTENT-TYPE").unwrap()
    );
    assert_eq!(value, "true:200:OK:/api:123:123:yes:text/plain;charset=utf-8");
}

#[test]
fn response_constructor_and_headers_normalize_names() {
    let mut h = headers_object(Some(vec![
        ("Content-Type".to_string(), "application/json".to_string()),
        ("x-id".to_string(), "a".to_string()),
    ]));
    h.append("X-ID", "b");
    let r = construct_response(
        "{\"ok\":true}",
        Some(ResponseInit { status: Some(404), status_text: None, headers: Some(h) }),
    );
    let value = format!(
        "{}:{}:{}:{}:{}:{}:{}",
        r.ok,
        r.status,
        r.status_text,
        r.headers.has("content-type"),
        r.headers.get("CONTENT-TYPE").unwrap(),
        r.headers.get("x-id").unwrap(),
        r.text()
    );
    assert_eq!(value, "false:404:Not Found:true:application/json:a, b:{\"ok\":true}");
}

use tetherscript::bridge::{blank_reply, request_text};
use tetherscript::origin::BridgeUrl;
use tetherscript::browser_dom::DomArena;
use tetherscript::fetch::{construct_response, JsonStub};
use tetherscript::bridge::{bridge_result, content_length, parse_uint, status_code};
use tetherscript::authority::{settle_invoke, BrowserAuthority};
use tetherscript::trace::BrowserTrace;
use tetherscript::dom_tree::{write_property, PropertyWrite};
use tetherscript::document::{Document, Element, Node};
use tetherscript::dom_tree::{get_node, html_to_root, inner_html, outer_html, remove_self, text_content_raw};
use tetherscript::fetch::headers_object;
use tetherscript::navigation::{document_headers, script_navigation, DocumentRequest};
use tetherscript::report::{result_to_value, BrowserJsResult};
use tetherscript::resources::resource_headers;
use tetherscript::storage::Storage;
use tetherscript::timers::TimerQueue;
use tetherscript::url::{url_object, SearchParams};
use tetherscript::value::{encode_json, Value};

fn text(t: &str) -> Node {
    Node::Text(t.to_string())
}

fn el(tag: &str, attrs: &[(&str, &str)], children: Vec<Node>) -> Node {
    Node::Element(Element {
        tag: tag.to_string(),
        attrs: attrs.iter().map(|(k, v)| (k.to_string(), v.to_string())).collect(),
        children,
    })
}

#[test]
fn headers_get_after_set_and_append() {
    let mut h = headers_object(Some(vec![("A".to_string(), "1".to_string()), ("a".to_string(), "2".to_string())]));
    assert_eq!(h.get("a"), Some("1, 2".to_string()));
    h.set("A", "x");
    assert_eq!(h.get("a"), Some("x".to_string()));
    h.append("a", "y");
    assert_eq!(h.get("A"), Some("x, y".to_string()));
    h.append("new", "z");
    assert_eq!(h.get("new"), Some("z".to_string()));
}

#[test]
fn storage_laws_on_values() {
    let mut s = Storage::new();
    s.set_item("k", "v");
    assert_eq!(s.get_item("k"), Some("v".to_string()));
    s.set_item("k", "w");
    assert_eq!(s.length(), 1);
    s.remove_item("k");
    assert_eq!(s.get_item("k"), None);
}

#[test]
fn search_params_laws_on_values() {
    let mut p = SearchParams::new("a=1&a=2&b=3");
    p.set("a", "9");
    assert_eq!(p.get("a"), Some("9".to_string()));
    p.delete("b");
    assert!(!p.has("b"));
    assert_eq!(p.to_string(), "a=9");
}

#[test]
fn timer_ids_increase() {
    let mut q: TimerQueue<u8> = TimerQueue::new();
    let a = q.set_timeout(1, vec![]);
    let b = q.set_timeout(2, vec![]);
    assert!(a < b);
    assert_eq!((a, b), (1, 2));
}

#[test]
fn url_object_set_href() {
    let mut u = url_object("https://a.example/x?y=1");
    u.set_href("/z?w=2");
    assert_eq!(u.to_string(), "http://localhost/z?w=2");
    assert_eq!(u.search_params.as_ref().unwrap().get("w"), Some("2".to_string()));
}

#[test]
fn remove_and_markup() {
    let mut root = html_to_root(Document {
        children: vec![el("ul", &[("id", "l")], vec![el("li", &[], vec![text("a<b")]), el("li", &[], vec![text("c")])])],
    });
    assert_eq!(
        outer_html(get_node(&root, &[0]).unwrap()),
        "<ul id=\"l\"><li>a&lt;b</li><li>c</li></ul>"
    );
    assert!(remove_self(&mut root, &[0, 0]));
    assert!(!remove_self(&mut root, &[0, 5]));
    assert!(!remove_self(&mut root, &[]));
    assert_eq!(inner_html(get_node(&root, &[0]).unwrap()), "<li>c</li>");
    assert_eq!(text_content_raw(&root), "c");
}

#[test]
fn request_headers_get_cookies() {
    let r = DocumentRequest::get("/a").with_header("X", "1");
    let h = document_headers(&r, "sid=1".to_string());
    assert_eq!(h, vec![("X".to_string(), "1".to_string()), ("cookie".to_string(), "sid=1".to_string())]);
    let r = DocumentRequest::get("/a").with_header("Cookie", "mine");
    assert_eq!(document_headers(&r, "sid=1".to_string()).len(), 1);
    assert_eq!(document_headers(&DocumentRequest::get("/a"), String::new()).len(), 0);
    assert_eq!(resource_headers(false, "http://p".to_string(), "c=1".to_string()), vec![("origin".to_string(), "http://p".to_string())]);
    assert_eq!(resource_headers(true, "http://p".to_string(), "c=1".to_string()), vec![("cookie".to_string(), "c=1".to_string())]);
    assert!(resource_headers(true, "http://p".to_string(), String::new()).is_empty());
}

#[test]
fn script_navigation_commits_changed_location() {
    assert_eq!(script_navigation("location.href='/b'", "/a", "/b"), Some("/b".to_string()));
    assert_eq!(script_navigation("location.href='/a'", "/a", "/a"), None);
    assert_eq!(script_navigation("history.back()", "/a", "/b"), None);
}

#[test]
fn script_result_as_value() {
    let result = BrowserJsResult {
        document: Document { children: vec![el("p", &[("id", "x")], vec![text("Hi")])] },
        value: Value::Int(2),
        console: vec!["log".to_string()],
    };
    assert_eq!(
        encode_json(&result_to_value(result)),
        "{\"dom\":[{\"type\":\"element\",\"tag\":\"p\",\"attrs\":{\"id\":\"x\"},\"children\":[{\"type\":\"text\",\"text\":\"Hi\"}]}],\"value\":2,\"console\":[\"log\"]}"
    );
}

#[test]
fn arena_ids_follow_document_order() {
    let document = Document {
        children: vec![el("ul", &[], vec![el("li", &[], vec![text("Same")]), el("li", &[], vec![text("Same")])])],
    };
    let arena = DomArena::from_document(&document);
    let items = arena.query_selector("li");
    assert_eq!(items.iter().map(|i| i.index()).collect::<Vec<_>>(), vec![1, 3]);
    let ul = arena.root_ids()[0];
    assert_eq!(ul.index(), 0);
    assert_eq!(arena.parent(items[1]), Some(ul));
    assert!(arena.children(ul).unwrap().contains(&items[1]));
}

#[test]
fn response_json_reads_numbers_and_strings() {
    assert!(matches!(construct_response(" 123 ", None).json(), JsonStub::Number(ref n) if n == "123"));
    assert!(matches!(construct_response("\"hi\"", None).json(), JsonStub::Str(ref s) if s == "hi"));
    assert!(matches!(construct_response("null", None).json(), JsonStub::Null));
}

#[test]
fn bridge_reply_readings() {
    assert_eq!(status_code("HTTP/1.1 204 No Content\r\n"), Ok(204));
    assert_eq!(status_code("HTTP/1.1\r\n").unwrap_err(), "browser bridge: missing HTTP status");
    assert_eq!(status_code("HTTP/1.1 abc\r\n").unwrap_err(), "browser bridge: bad HTTP status line HTTP/1.1 abc");
    let lines = vec!["Content-Length: 5".to_string(), "X: y".to_string(), "content-length: 12 ".to_string()];
    assert_eq!(content_length(&lines), Some(12));
    assert_eq!(content_length(&vec!["Content-Length: 5".to_string(), "CONTENT-LENGTH: x".to_string()]), None);
    assert_eq!(parse_uint("+7", 10), Some(7));
    assert_eq!(parse_uint("11", 10), None);
    assert_eq!(bridge_result(200, "ok".to_string()), Ok("ok".to_string()));
    assert_eq!(bridge_result(502, "down".to_string()).unwrap_err(), "browser bridge returned HTTP 502: down");
}

#[test]
fn invoke_answers_locally_and_falls_back() {
    let a = BrowserAuthority::new("http://h:1/b/", vec![], vec!["browser.navigate".to_string()]);
    assert_eq!(a.bridge_url("goto"), "http://h:1/b/goto");
    let trace = BrowserTrace::new();
    assert!(a.local_answer(&trace, "describe", 0).is_some());
    assert!(a.local_answer(&trace, "export_trace_json", 5).is_some());
    assert!(a.local_answer(&trace, "goto", 0).is_none());
    let r = settle_invoke(&trace, "agent_summary", Err("down".to_string())).unwrap();
    assert_eq!(encode_json(&r), "{\"action_count\":0,\"observation_count\":0,\"console_event_count\":0,\"network_event_count\":0,\"error_count\":0}");
    assert_eq!(settle_invoke(&trace, "goto", Err("down".to_string())).unwrap_err(), "down");
}

#[test]
fn property_writes_edit_only_the_target() {
    let mut root = html_to_root(Document { children: vec![el("p", &[("id", "a")], vec![text("x")]), el("p", &[], vec![])] });
    write_property(&mut root, &[0], PropertyWrite::Checked(true));
    write_property(&mut root, &[0], PropertyWrite::Text("y".to_string()));
    write_property(&mut root, &[9], PropertyWrite::Id("z".to_string()));
    assert_eq!(outer_html(get_node(&root, &[0]).unwrap()), "<p id=\"a\" checked=\"checked\">y</p>");
    assert_eq!(outer_html(get_node(&root, &[1]).unwrap()), "<p></p>");
}

#[test]
fn bridge_request_text() {
    let url = BridgeUrl::parse("http://127.0.0.1:41707/browser/goto").unwrap();
    assert_eq!(
        request_text(&url, "{\"a\":\"é\"}"),
        "POST /browser/goto HTTP/1.1\r\nHost: 127.0.0.1:41707\r\nUser-Agent: tetherscript-browser-cap/0.1\r\nContent-Type: application/json\r\nAccept: application/json\r\nConnection: close\r\nContent-Length: 10\r\n\r\n{\"a\":\"é\"}"
    );
    assert!(blank_reply(" \r\n"));
    assert!(!blank_reply(" 1 "));
}

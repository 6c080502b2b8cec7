use tetherscript::agent::{
    click, detect_regions, region_for, set_viewport_size, similarity_parts, touch_script,
    ElementProps, ElementSummary, PageRegion,
};
use tetherscript::dom_tree::{node_props, write_property, PropertyWrite};
use tetherscript::document::{Element, Node};
use tetherscript::events::EventRegistry;
use tetherscript::navigation::{
    follow, header, load_step, looks_like_location_navigation, redirect_location, rewrites_to_get,
    DocumentRequest, LoadStep,
};
use tetherscript::report::{eval_js_args, run_scripts_args};
use tetherscript::resources::{
    append_script, blocked, failed, mapping_url, quoted, rejection, validate_cors, ResourceKind,
    SecurityFacts,
};
use tetherscript::value::Value;

fn pairs(xs: &[(&str, &str)]) -> Vec<(String, String)> {
    xs.iter().map(|(a, b)| (a.to_string(), b.to_string())).collect()
}

#[test]
fn set_viewport_updates_compat_fields() {
    assert_eq!(set_viewport_size(320, 640).unwrap(), "resizeTo(320,640)");
    assert_eq!(set_viewport_size(0, 640).unwrap_err(), "viewport width and height must be positive");
    assert_eq!(set_viewport_size(320, -1).unwrap_err(), "viewport width and height must be positive");
}

#[test]
fn touch_and_click_scripts() {
    let t = touch_script("N", "T", false);
    assert_eq!(
        t,
        "let n=N;let t={type:'touchstart',touches:[{T}],targetTouches:[{T}],changedTouches:[{T}]};n.dispatchEvent(t);n.dispatchEvent({type:'touchend',touches:[],targetTouches:[],changedTouches:t.changedTouches});"
    );
    let m = touch_script("N", "T", true);
    assert!(m.contains("n.dispatchEvent({type:'touchmove',touches:t.touches,targetTouches:t.targetTouches,changedTouches:[{T}]});n.dispatchEvent({type:'touchend'"));
    let c = click("N", 1, 2, 3, 4);
    assert!(c.starts_with("let n=N;n.dispatchEvent({type:'pointerdown',isTrusted:true,button:0,buttons:1,detail:0,clientX:1,clientY:2,screenX:1,screenY:2,pageX:3,pageY:4,x:1,y:2,offsetX:0,offsetY:0,movementX:0,movementY:0,pointerId:1,width:1,height:1,pressure:0.5,"));
    assert!(c.ends_with("n.dispatchEvent({type:'click',__agentClick:true,isTrusted:true,button:0,buttons:0,detail:1,clientX:1,clientY:2,screenX:1,screenY:2,pageX:3,pageY:4,x:1,y:2,offsetX:0,offsetY:0,movementX:0,movementY:0})"));
    assert!(c.contains("pressure:0,tangentialPressure:0"));
}

fn summary(tag: &str, role: Option<&str>, id: Option<&str>, classes: &[&str], sel: &str) -> ElementSummary {
    ElementSummary {
        tag: tag.to_string(),
        role: role.map(|s| s.to_string()),
        id: id.map(|s| s.to_string()),
        classes: classes.iter().map(|s| s.to_string()).collect(),
        selector: sel.to_string(),
    }
}

#[test]
fn regions_by_landmark_and_name() {
    assert_eq!(region_for(&summary("HEADER", None, None, &[], "h")), Some((PageRegion::Header, 95)));
    assert_eq!(region_for(&summary("div", Some("Navigation"), None, &[], "n")), Some((PageRegion::Navigation, 95)));
    assert_eq!(region_for(&summary("div", None, Some("MyModal"), &[], "m")), Some((PageRegion::Modal, 80)));
    assert_eq!(region_for(&summary("div", None, None, &["left", "side-Sidebar"], "s")), Some((PageRegion::Sidebar, 75)));
    assert_eq!(region_for(&summary("aside", None, None, &[], "a")), Some((PageRegion::Sidebar, 75)));
    assert_eq!(region_for(&summary("div", Some("complementary"), None, &[], "c")), Some((PageRegion::Complementary, 85)));
    assert_eq!(region_for(&summary("div", Some("dialog"), None, &[], "d")), Some((PageRegion::Dialog, 95)));
    assert_eq!(region_for(&summary("span", None, None, &[], "x")), None);
    let hits = detect_regions(&vec![summary("main", None, None, &[], "#m"), summary("p", None, None, &[], "p")]);
    assert_eq!(hits.len(), 1);
    assert_eq!((hits[0].kind, hits[0].selector.as_str(), hits[0].confidence), (PageRegion::Main, "#m", 95));
}

#[test]
fn fingerprint_parts() {
    let a = ElementProps {
        tag: " BUTTON ".to_string(),
        id: Some("Go".to_string()),
        classes: vec!["btn".to_string(), "primary".to_string()],
        text: Some("Submit order".to_string()),
        position_hint: Some(2),
        ..Default::default()
    };
    let b = ElementProps {
        tag: "button".to_string(),
        id: Some("go ".to_string()),
        classes: vec!["BTN".to_string(), "x".to_string(), "y".to_string()],
        text: Some("order".to_string()),
        position_hint: Some(2),
        ..Default::default()
    };
    let p = similarity_parts(&a, &b);
    assert!(p.tag && p.id && p.text && !p.role && p.position);
    assert_eq!((p.class_hits, p.class_total), (1, 3));
    let q = similarity_parts(&ElementProps::default(), &b);
    assert_eq!((q.class_hits, q.class_total), (0, 0));
    assert!(!q.id && !q.position && !q.text);
}

#[test]
fn node_properties_and_writes() {
    let mut root = Node::Element(Element {
        tag: "#document".to_string(),
        attrs: vec![],
        children: vec![Node::Element(Element {
            tag: "input".to_string(),
            attrs: pairs(&[("id", "n"), ("checked", "")]),
            children: vec![],
        })],
    });
    let p = node_props(&root);
    assert_eq!((p.node_type, p.node_name.as_str(), p.tag_name.as_str()), (9, "#document", "#DOCUMENT"));
    write_property(&mut root, &[0], PropertyWrite::Value("v".to_string()));
    write_property(&mut root, &[0], PropertyWrite::Checked(false));
    write_property(&mut root, &[0], PropertyWrite::ClassName("c".to_string()));
    let Node::Element(doc) = &root else { panic!("expected element") };
    let p = node_props(&doc.children[0]);
    assert_eq!((p.node_type, p.tag_name.as_str()), (1, "INPUT"));
    let f = p.element.unwrap();
    assert_eq!((f.id.as_str(), f.class_name.as_str(), f.value.as_str(), f.checked), ("n", "c", "v", false));
    let t = node_props(&Node::Text("hi".to_string()));
    assert_eq!((t.node_type, t.node_name.as_str(), t.text_content.as_str()), (3, "#text", "hi"));
    assert!(t.element.is_none());
}

#[test]
fn remove_event_listener_and_typeof_work() {
    let mut reg = EventRegistry::new();
    reg.add_event_listener(&[0], "click", 7);
    reg.remove_event_listener(&[0], "click", 7);
    let plan = reg.dispatch_plan(&[0], "click");
    let count: usize = plan.iter().map(|s| s.listeners.len()).sum();
    assert_eq!(count, 0);
}

#[test]
fn event_listeners_property_handlers_this_and_event_target_work() {
    let mut reg = EventRegistry::new();
    reg.add_event_listener(&[0, 1], "click", 1);
    reg.add_event_listener(&[0], "click", 2);
    reg.add_event_listener(&[0, 1], "input", 3);
    reg.set_handler(&[0, 1], "onclick", 4);
    reg.set_handler(&[0, 1], "onclick", 5);
    let plan = reg.dispatch_plan(&[0, 1], "click");
    assert_eq!(plan.len(), 3);
    assert_eq!((plan[0].path.clone(), plan[0].listeners.clone(), plan[0].handler), (vec![0, 1], vec![1], Some(5)));
    assert_eq!((plan[1].path.clone(), plan[1].listeners.clone(), plan[1].handler), (vec![0], vec![2], None));
    assert_eq!((plan[2].path.clone(), plan[2].listeners.clone(), plan[2].handler), (vec![], vec![], None));
}

#[test]
fn document_requests_and_redirects() {
    let r = DocumentRequest::new("post", "/a");
    assert_eq!(r.method, "POST");
    let r = DocumentRequest::form_post("/f", "a=1".to_string()).with_header("Content-Length", "3");
    let g = follow(r, 302, "http://h/next".to_string());
    assert_eq!((g.method.as_str(), g.url.as_str(), g.body.is_none(), g.headers.len()), ("GET", "http://h/next", true, 0));
    let r = DocumentRequest::form_post("/f", "a=1".to_string());
    let k = follow(r, 307, "/again".to_string());
    assert_eq!((k.method.as_str(), k.body.as_deref()), ("POST", Some("a=1")));
    assert!(rewrites_to_get(303, "GET"));
    assert!(!rewrites_to_get(301, "HEAD"));
    let headers = pairs(&[("X", "1"), ("Location", "/to")]);
    assert_eq!(header(&headers, "location"), Some("/to".to_string()));
    assert_eq!(redirect_location(308, &headers), Some("/to".to_string()));
    assert_eq!(redirect_location(200, &headers), None);
    assert!(matches!(load_step(0, "/a", "/a", 301, &headers), LoadStep::Redirect(ref l) if l == "/to"));
    assert!(matches!(load_step(20, "/a", "/b", 301, &headers), LoadStep::Failed(ref e) if e == "document redirect limit exceeded: /a"));
    assert!(matches!(load_step(0, "/a", "/a", 204, &vec![]), LoadStep::Done));
    assert!(matches!(load_step(0, "/a", "/b", 404, &vec![]), LoadStep::Failed(ref e) if e == "document navigation failed: /b status 404"));
    assert!(looks_like_location_navigation("window.location = '/x'"));
    assert!(!looks_like_location_navigation("location.reload()"));
}

#[test]
fn resource_helpers() {
    let html = append_script("<p></p>".to_string(), "a&\"b.js", "go()");
    assert_eq!(html, "<p></p><script data-agent-resource-script=\"a&amp;&quot;b.js\">go()</script>");
    assert_eq!(append_script(html.clone(), "a&\"b.js", "again()"), html);
    assert_eq!(failed(ResourceKind::SourceMap, "m.map", "http://h/m.map", 500), "failed external source map resource: m.map (resolved http://h/m.map) status 500");
    assert_eq!(mapping_url("a\n//# sourceMappingURL=one.map\nb\n//# sourceMappingURL= two.map \r\n"), Some("two.map".to_string()));
    assert_eq!(mapping_url("nothing"), None);
    assert_eq!(quoted("it's\\\n"), "'it\\'s\\\\\\n'");
    assert_eq!(rejection("http://h/m.js"), "Promise.reject(TypeError('Failed to fetch dynamically imported module: http://h/m.js'))");
    let facts = SecurityFacts {
        same_origin: false,
        target_opaque: false,
        allowed_by_policy: false,
        request_origin: "http://a".to_string(),
        target_origin: "http://b".to_string(),
    };
    assert_eq!(blocked(&facts), Some("CORS blocked cross-origin request from http://a to http://b".to_string()));
    assert!(validate_cors(&facts, &pairs(&[("Access-Control-Allow-Origin", "HTTP://A")])).is_ok());
    assert!(validate_cors(&facts, &pairs(&[("access-control-allow-origin", "*")])).is_ok());
    assert_eq!(validate_cors(&facts, &vec![]).unwrap_err(), "CORS blocked external resource from http://a to http://b");
}

#[test]
fn script_run_arguments() {
    assert_eq!(run_scripts_args(&[Value::Str("<p>".to_string())]).unwrap(), "<p>");
    assert_eq!(run_scripts_args(&[]).unwrap_err(), "browser_run_scripts: expected 1 arg, got 0");
    assert_eq!(run_scripts_args(&[Value::Int(1)]).unwrap_err(), "browser_run_scripts: expected str, got int");
    assert_eq!(
        eval_js_args(&[Value::Str("h".to_string()), Value::Str("s".to_string())]).unwrap(),
        ("h".to_string(), "s".to_string())
    );
    assert_eq!(eval_js_args(&[Value::Nil, Value::Nil]).unwrap_err(), "browser_eval_js: html must be str, got nil");
    assert_eq!(
        eval_js_args(&[Value::Str("h".to_string()), Value::Bool(true)]).unwrap_err(),
        "browser_eval_js: script must be str, got bool"
    );
}

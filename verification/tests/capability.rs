use tetherscript::authority::{
    finish_call, invoke_route, is_mutating_or_external, unwrap_bridge_response, BrowserAuthority,
    InvokeRoute,
};
use tetherscript::browserctl::{
    viewport_prepare, wait_idle, wait_selector, wait_text, js_string, network_prepare, point_eval, raw_visual, storage_prepare, BrowserCall,
};
use tetherscript::call_args::{expect_int, expect_str, optional_int, string_list};
use tetherscript::origin::{normalize_origin, BridgeUrl, ParsedUrl};
use tetherscript::trace::BrowserTrace;
use tetherscript::value::{display, encode_json, lookup, Value};

fn s(x: &str) -> Value {
    Value::Str(x.to_string())
}

fn dict(entries: Vec<(&str, Value)>) -> Value {
    Value::Dict(entries.into_iter().map(|(k, v)| (k.to_string(), v)).collect())
}

fn strings(xs: &[&str]) -> Vec<String> {
    xs.iter().map(|x| x.to_string()).collect()
}

fn authority() -> BrowserAuthority {
    BrowserAuthority::new(
        "http://127.0.0.1:41707/browser/",
        strings(&["https://Example.com/", "http://localhost:3000"]),
        strings(&["browser.navigate", "browser.interact", "browser.inspect.dom"]),
    )
}

#[test]
fn all_scopes_lists_every_scope() {
    let scopes = BrowserAuthority::all_scopes();
    assert_eq!(scopes.len(), 11);
    assert_eq!(scopes[0], "browser.navigate");
    assert_eq!(scopes[10], "browser.visual");
}

#[test]
fn new_normalizes_endpoint_and_origins_and_describe_sorts_scopes() {
    let a = authority();
    assert_eq!(a.endpoint(), "http://127.0.0.1:41707/browser");
    assert_eq!(a.timeout_ms(), 30000);
    let d = a.describe();
    let Value::Dict(es) = &d else { panic!("expected map") };
    assert_eq!(display(lookup(es, "origins").unwrap()), "[https://example.com, http://localhost:3000]");
    assert_eq!(
        display(lookup(es, "scopes").unwrap()),
        "[browser.inspect.dom, browser.interact, browser.navigate]"
    );
    assert!(matches!(lookup(es, "human_approval"), Some(Value::Bool(false))));
    assert!(matches!(lookup(es, "path_prefix"), Some(Value::Nil)));
}

#[test]
fn scope_and_origin_checks() {
    let a = authority();
    assert!(a.require_scope("browser.navigate").is_ok());
    assert_eq!(a.require_scope("browser.visual").unwrap_err(), "browser: scope `browser.visual` not granted");
    assert!(a.require_origin_url("https://example.com/app").is_ok());
    assert_eq!(
        a.require_origin_url("https://evil.com/").unwrap_err(),
        "browser: origin https://evil.com is not in allowed set [\"https://example.com\", \"http://localhost:3000\"]"
    );
    assert_eq!(a.require_origin_url("example.com").unwrap_err(), "browser: url `example.com` has no scheme");
    assert_eq!(a.require_origin_url("ftp://example.com").unwrap_err(), "browser: unsupported url scheme `ftp`");
    assert_eq!(a.require_origin_url("http://localhost:99999/").unwrap_err(), "browser: bad port");
    assert!(a.approval_check("goto").is_ok());
}

#[test]
fn prepare_call_maps_methods_to_scopes_and_payloads() {
    let a = authority();
    let (scope, payload) = a.prepare_call("goto", &[s("https://example.com/x")]).unwrap();
    assert_eq!(scope, "browser.navigate");
    assert_eq!(encode_json(&payload), "{\"url\":\"https://example.com/x\"}");
    let (scope, payload) = a.prepare_call("click_text", &[s("Go")]).unwrap();
    assert_eq!(scope, "browser.interact");
    assert_eq!(encode_json(&payload), "{\"text\":\"Go\",\"timeout_ms\":30000}");
    let (scope, payload) = a.prepare_call("scroll", &[Value::Nil, Value::Int(5)]).unwrap();
    assert_eq!(scope, "browser.interact");
    assert_eq!(encode_json(&payload), "{\"target\":null,\"amount\":5}");
    let (_, payload) = a.prepare_call("scroll", &[]).map(|x| x).unwrap_or((String::new(), Value::Nil));
    assert!(matches!(payload, Value::Nil));
    let (scope, payload) = a.prepare_call("wait_for_network_idle", &[]).unwrap();
    assert_eq!(scope, "browser.inspect.network");
    assert_eq!(encode_json(&payload), "{\"timeout_ms\":5000}");
    let (scope, payload) = a.prepare_call("local_storage", &[]).unwrap();
    assert_eq!(scope, "browser.inspect.storage");
    assert_eq!(encode_json(&payload), "{\"storage_scope\":null}");
    assert_eq!(a.prepare_call("fly", &[]).unwrap_err(), "browser: no method `fly`");
    assert_eq!(a.prepare_call("reload", &[Value::Int(1)]).unwrap_err(), "browser.reload expects no arguments");
    assert_eq!(a.prepare_call("type", &[s("#a")]).unwrap_err(), "browser.type missing arg 2");
    assert_eq!(a.prepare_call("press", &[Value::Int(1)]).unwrap_err(), "browser.press arg 1 must be str, got int");
    assert_eq!(a.prepare_call("set_cookie", &[]).unwrap_err(), "set_cookie expects cookie map");
    assert_eq!(a.prepare_call("visual_diff", &[s("a")]).unwrap_err(), "visual_diff expects after");
    assert_eq!(a.prepare_call("request", &[]).unwrap_err(), "browser.request missing id");
    assert_eq!(
        a.prepare_call("wait_for_selector", &[s("#a"), s("x")]).unwrap_err(),
        "timeout/amount must be int, got str"
    );
}

#[test]
fn begin_call_gates_scope_and_approval_and_records_actions() {
    let a = authority();
    let mut trace = BrowserTrace::new();
    let payload = a.begin_call(&mut trace, "click", &[s("#go")], 7).unwrap();
    assert_eq!(encode_json(&payload), "{\"selector\":\"#go\"}");
    assert_eq!(
        a.begin_call(&mut trace, "screenshot", &[], 8).unwrap_err(),
        "browser: scope `browser.screenshot` not granted"
    );
    let gated = a.narrow(&dict(vec![("human_approval", Value::Bool(true))])).unwrap();
    assert_eq!(
        gated.begin_call(&mut trace, "click", &[s("#go")], 9).unwrap_err(),
        "browser.click: human approval gate is enabled; host approval integration required"
    );
    // Reads are not held for approval.
    assert!(gated.begin_call(&mut trace, "dom_snapshot", &[], 10).is_ok());
    let summary = trace.agent_summary();
    assert_eq!(encode_json(&summary), "{\"action_count\":2,\"observation_count\":0,\"console_event_count\":0,\"network_event_count\":0,\"error_count\":0}");
    let repro = trace.minimal_repro();
    assert_eq!(display(&repro), "fn repro(browser) {\n    // click\n    // dom_snapshot\n    return browser.trace()?\n}");
}

#[test]
fn finish_call_files_observations_and_errors() {
    let mut trace = BrowserTrace::new();
    let r = finish_call(&mut trace, "console_logs", Ok(s("hello")), 1);
    assert!(matches!(r, Ok(Value::Str(ref x)) if x == "hello"));
    let r = finish_call(&mut trace, "network_log", Ok(Value::Int(3)), 2);
    assert!(r.is_ok());
    let r = finish_call(&mut trace, "goto", Err("down".to_string()), 3);
    assert_eq!(r.unwrap_err(), "down");
    let summary = trace.agent_summary();
    assert_eq!(encode_json(&summary), "{\"action_count\":0,\"observation_count\":2,\"console_event_count\":1,\"network_event_count\":1,\"error_count\":1}");
    let har = trace.har_value();
    assert_eq!(
        encode_json(&har),
        "{\"log\":{\"version\":\"1.2\",\"creator\":{\"name\":\"TetherScript BrowserAuthority\",\"version\":\"0.1\"},\"entries\":[3]}}"
    );
    let t = trace.trace_value(99);
    let Value::Dict(es) = &t else { panic!("expected map") };
    assert_eq!(encode_json(lookup(es, "timestamps").unwrap()), "{\"exported_at_ms\":99}");
    assert_eq!(
        encode_json(lookup(es, "errors").unwrap()),
        "[{\"timestamp_ms\":3,\"kind\":\"error\",\"method\":\"goto\",\"data\":\"down\"}]"
    );
}

#[test]
fn narrow_only_restricts() {
    let a = authority();
    let n = a
        .narrow(&dict(vec![
            ("origins", Value::List(vec![s("https://example.com/")])),
            ("scopes", Value::List(vec![s("browser.navigate")])),
            ("path_prefix", s("/app")),
            ("storage_scope", s("tenant")),
        ]))
        .unwrap();
    assert!(n.require_scope("browser.interact").is_err());
    assert!(n.require_origin_url("https://example.com/app/x").is_ok());
    assert_eq!(
        n.require_origin_url("https://example.com/other").unwrap_err(),
        "browser: path /other does not match required prefix /app"
    );
    assert_eq!(
        a.narrow(&dict(vec![("scopes", Value::List(vec![s("browser.visual")]))])).unwrap_err(),
        "browser.narrow: requested scopes are not a subset"
    );
    assert_eq!(
        a.narrow(&dict(vec![("origins", Value::List(vec![s("https://evil.com")]))])).unwrap_err(),
        "browser.narrow: requested origins are not a subset"
    );
    assert_eq!(
        n.narrow(&dict(vec![("path_prefix", s("/other"))])).unwrap_err(),
        "browser.narrow: path_prefix must extend current prefix"
    );
    assert_eq!(a.narrow(&Value::Nil).unwrap_err(), "browser.narrow: expected params map");
    assert_eq!(
        a.narrow(&dict(vec![("scopes", s("x"))])).unwrap_err(),
        "browser.narrow scopes must be list, got str"
    );
    assert_eq!(
        a.narrow(&dict(vec![("origins", Value::List(vec![Value::Int(1)]))])).unwrap_err(),
        "browser.narrow origins entries must be strings, got int"
    );
    // The approval gate stays on once on.
    let gated = a.narrow(&dict(vec![("human_approval", Value::Bool(true))])).unwrap();
    let still = gated.narrow(&dict(vec![("human_approval", Value::Bool(false))])).unwrap();
    assert!(still.approval_check("goto").is_err());
    let (_, payload) = n.prepare_call("cookies", &[]).unwrap();
    assert_eq!(encode_json(&payload), "{\"storage_scope\":\"tenant\"}");
}

#[test]
fn bridge_replies_unwrap() {
    let ok = dict(vec![("ok", Value::Bool(true)), ("value", Value::Int(4))]);
    assert!(matches!(unwrap_bridge_response("m", ok), Ok(Value::Int(4))));
    let res = dict(vec![("ok", Value::Bool(true)), ("result", s("r"))]);
    assert!(matches!(unwrap_bridge_response("m", res), Ok(Value::Str(ref x)) if x == "r"));
    let none = dict(vec![("ok", Value::Bool(true))]);
    assert!(matches!(unwrap_bridge_response("m", none), Ok(Value::Nil)));
    let bad = dict(vec![("ok", Value::Bool(false)), ("error", s("boom"))]);
    assert_eq!(unwrap_bridge_response("goto", bad).unwrap_err(), "browser.goto: boom");
    let bad = dict(vec![("ok", Value::Bool(false))]);
    assert_eq!(unwrap_bridge_response("goto", bad).unwrap_err(), "browser.goto: unknown bridge error");
    assert!(matches!(unwrap_bridge_response("m", Value::Int(2)), Ok(Value::Int(2))));
}

#[test]
fn invoke_routes_and_mutating_methods() {
    assert_eq!(invoke_route("describe"), InvokeRoute::Describe);
    assert_eq!(invoke_route("export_trace_json"), InvokeRoute::Trace);
    assert_eq!(invoke_route("export_har"), InvokeRoute::RemoteOrHar);
    assert_eq!(invoke_route("agent_summary"), InvokeRoute::RemoteOrSummary);
    assert_eq!(invoke_route("minimal_reproduction_script"), InvokeRoute::RemoteOrRepro);
    assert_eq!(invoke_route("goto"), InvokeRoute::Remote);
    assert!(is_mutating_or_external("replay_request"));
    assert!(!is_mutating_or_external("screenshot"));
}

#[test]
fn url_parsing_for_origins_and_bridge() {
    let p = ParsedUrl::parse("HTTPS://Example.COM:8443/a/b").unwrap();
    assert_eq!(p.origin(), "https://example.com:8443");
    assert_eq!(p.path, "/a/b");
    assert_eq!(ParsedUrl::parse("http://x").unwrap().path, "/");
    assert_eq!(normalize_origin("http://Host:080/".to_string()), "http://host:80");
    assert_eq!(normalize_origin("not a url".to_string()), "not a url");
    let b = BridgeUrl::parse("http://127.0.0.1:41707/browser/goto").unwrap();
    assert_eq!((b.host.as_str(), b.port, b.host_header.as_str(), b.target.as_str()), ("127.0.0.1", 41707, "127.0.0.1:41707", "/browser/goto"));
    let b = BridgeUrl::parse("http://bridge?x=1").unwrap();
    assert_eq!((b.port, b.host_header.as_str(), b.target.as_str()), (80, "bridge", "/?x=1"));
    assert_eq!(BridgeUrl::parse("https://x").unwrap_err(), "browser bridge endpoint must be http:// in std-only MVP");
    assert_eq!(BridgeUrl::parse("http:///x").unwrap_err(), "browser bridge URL missing host");
    assert_eq!(BridgeUrl::parse("http://h:70000").unwrap_err(), "browser bridge bad port");
}

#[test]
fn argument_helpers() {
    let args = [s("a"), Value::Int(3), Value::Bool(true)];
    assert_eq!(expect_str("m", &args, 0).unwrap(), "a");
    assert_eq!(expect_int("m", &args, 1).unwrap(), 3);
    assert_eq!(expect_int("m", &args, 2).unwrap_err(), "browser.m arg 3 must be int, got bool");
    assert_eq!(expect_str("m", &args, 5).unwrap_err(), "browser.m missing arg 6");
    assert_eq!(optional_int(&args, 7, 42).unwrap(), 42);
    assert_eq!(string_list(&Value::List(vec![s("x"), s("y")]), "l").unwrap(), vec!["x".to_string(), "y".to_string()]);
}

#[test]
fn browserctl_requests() {
    let c: BrowserCall = network_prepare("failed_requests", &[s("api")]).unwrap();
    assert_eq!((c.action.as_str(), c.scope.as_str()), ("network_log", "browser.inspect.network"));
    assert_eq!(encode_json(&c.payload), "{\"action\":\"network_log\",\"failed_only\":true,\"url_contains\":\"api\"}");
    let c = network_prepare("wait_for_response", &[s("/x")]).unwrap();
    assert_eq!(
        encode_json(&c.payload),
        "{\"action\":\"network_log\",\"url_contains\":\"/x\",\"limit\":1,\"wait_kind\":\"response\",\"timeout_ms\":30000}"
    );
    assert_eq!(network_prepare("diagnose", &[s("x")]).unwrap_err(), "browser.diagnose expects no arguments");
    let c = storage_prepare("set_local_storage", &[s("k\"1"), s("v\\")]).unwrap();
    assert_eq!((c.action.as_str(), c.scope.as_str()), ("eval", "browser.mutate.storage"));
    assert_eq!(
        encode_json(&c.payload),
        "{\"action\":\"eval\",\"expression\":\"localStorage.setItem(\\\"k\\\\\\\"1\\\",\\\"v\\\\\\\\\\\");true\"}"
    );
    assert_eq!(js_string("a\"b\\c"), "\"a\\\"b\\\\c\"");
    let c = storage_prepare("cookies", &[]).unwrap();
    assert_eq!(encode_json(&c.payload), "{\"action\":\"cookies\"}");
    let c = point_eval(&[Value::Int(3), Value::Int(-4)]).unwrap();
    assert_eq!(display(&c.payload), "{action: eval, expression: document.elementFromPoint(3,-4)?.outerHTML || null}");
    let c = raw_visual("assert_screenshot_matches", &[s("base")]).unwrap();
    assert_eq!(encode_json(&c.payload), "{\"action\":\"visual_compare\",\"mode\":\"assert_screenshot_matches\",\"before\":\"base\"}");
    assert_eq!(raw_visual("compare", &[s("a")]).unwrap_err(), "browser.compare missing arg 2");
}

#[test]
fn value_text_forms() {
    let v = Value::List(vec![Value::Nil, Value::Bool(true), Value::Int(-2), s("a\n\u{1}"), dict(vec![("k", s("v"))])]);
    assert_eq!(display(&v), "[nil, true, -2, a\n\u{1}, {k: v}]");
    assert_eq!(encode_json(&v), "[null,true,-2,\"a\\n\\u0001\",{\"k\":\"v\"}]");
    assert_eq!(v.kind_name(), "list");
}

#[test]
fn unscoped_actions_report_argument_errors() {
    assert_eq!(wait_selector(&[]).unwrap_err(), "browser.wait_for_selector missing arg 1");
    assert_eq!(wait_text(&[Value::Int(1)]).unwrap_err(), "browser.wait_for_text arg 1 must be str, got int");
    assert_eq!(wait_idle(&[Value::Nil]).unwrap_err(), "browser.wait_for_network_idle expects no arguments");
    assert_eq!(viewport_prepare(&[Value::Int(1)]).unwrap_err(), "browser.set_viewport missing arg 2");
}

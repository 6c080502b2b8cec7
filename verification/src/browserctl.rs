//! How browser methods map onto browserctl actions: the scope each action
//! needs, whether it changes the page, and the request built for the
//! network, storage and visual methods.

use vstd::prelude::*;

use crate::call_args::{
    arg_at, expect_int, expect_int_spec, expect_str, expect_str_spec, no_args, no_args_spec,
    optional_int, optional_int_spec,
};
use crate::text::{i64_text, int_text, replace, replace_char, starts_with, str_eq, str_starts_with};
use crate::value::{
    clone_value, entries_view, lemma_entries_view, lemma_values_view, opt_view, put, values_view,
    Value, ValueV,
};

verus! {

/// The scope that a browserctl action needs, where the action is known.
pub open spec fn scope_for_action_spec(a: Seq<char>) -> Option<Seq<char>> {
    if a == "goto"@ || a == "back"@ || a == "forward"@ || a == "reload"@ || a == "tabs"@
        || a == "tabs_select"@ || a == "tabs_new"@ || a == "tabs_close"@ || a == "start"@
        || a == "stop"@ {
        Some("browser.navigate"@)
    } else if a == "click"@ || a == "upload"@ || a == "fill"@ || a == "type"@ || a == "press"@
        || a == "hover"@ || a == "focus"@ || a == "blur"@ || a == "scroll"@ || a == "click_text"@
        || a == "fill_native"@ || a == "toggle"@ || a == "mouse_click"@ || a == "keyboard_type"@
        || a == "keyboard_press"@ {
        Some("browser.interact"@)
    } else if a == "snapshot"@ || a == "text"@ || a == "html"@ || a == "wait"@ || a == "eval"@ {
        Some("browser.inspect.dom"@)
    } else if a == "network_log"@ || a == "diagnose"@ {
        Some("browser.inspect.network"@)
    } else if a == "fetch"@ || a == "axios"@ || a == "xhr"@ || a == "replay"@ {
        Some("browser.replay.network"@)
    } else if a == "screenshot"@ {
        Some("browser.screenshot"@)
    } else if a == "health"@ || a == "detect"@ {
        Some("browser.inspect.dom"@)
    } else {
        None
    }
}

/// The scope that a browserctl action needs.
pub fn scope_for_action(action: &str) -> (r: Option<String>)
    ensures
        opt_view(r) == scope_for_action_spec(action@),
{
    let a = action;
    if str_eq(a, "goto") || str_eq(a, "back") || str_eq(a, "forward") || str_eq(a, "reload")
        || str_eq(a, "tabs") || str_eq(a, "tabs_select") || str_eq(a, "tabs_new")
        || str_eq(a, "tabs_close") || str_eq(a, "start") || str_eq(a, "stop") {
        Some(String::from_str("browser.navigate"))
    } else if str_eq(a, "click") || str_eq(a, "upload") || str_eq(a, "fill") || str_eq(a, "type")
        || str_eq(a, "press") || str_eq(a, "hover") || str_eq(a, "focus") || str_eq(a, "blur")
        || str_eq(a, "scroll") || str_eq(a, "click_text") || str_eq(a, "fill_native")
        || str_eq(a, "toggle") || str_eq(a, "mouse_click") || str_eq(a, "keyboard_type")
        || str_eq(a, "keyboard_press") {
        Some(String::from_str("browser.interact"))
    } else if str_eq(a, "snapshot") || str_eq(a, "text") || str_eq(a, "html") || str_eq(a, "wait")
        || str_eq(a, "eval") {
        Some(String::from_str("browser.inspect.dom"))
    } else if str_eq(a, "network_log") || str_eq(a, "diagnose") {
        Some(String::from_str("browser.inspect.network"))
    } else if str_eq(a, "fetch") || str_eq(a, "axios") || str_eq(a, "xhr") || str_eq(a, "replay") {
        Some(String::from_str("browser.replay.network"))
    } else if str_eq(a, "screenshot") {
        Some(String::from_str("browser.screenshot"))
    } else if str_eq(a, "health") || str_eq(a, "detect") {
        Some(String::from_str("browser.inspect.dom"))
    } else {
        None
    }
}

/// Actions that change the page or reach outside it: navigation other than
/// listing tabs, interaction, and network replay.
pub open spec fn is_mutating_spec(a: Seq<char>) -> bool {
    match scope_for_action_spec(a) {
        Some(s) => if s == "browser.navigate"@ {
            a != "tabs"@
        } else {
            s == "browser.interact"@ || s == "browser.replay.network"@
        },
        None => false,
    }
}

pub fn is_mutating(action: &str) -> (r: bool)
    ensures
        r == is_mutating_spec(action@),
{
    match scope_for_action(action) {
        Some(s) => {
            if str_eq(s.as_str(), "browser.navigate") {
                !str_eq(action, "tabs")
            } else {
                str_eq(s.as_str(), "browser.interact") || str_eq(s.as_str(), "browser.replay.network")
            }
        },
        None => false,
    }
}

/// A prepared browserctl request.
#[derive(Debug)]
pub struct BrowserCall {
    pub action: String,
    pub scope: String,
    pub payload: Value,
}

/// Mathematical value of a [`BrowserCall`].
pub struct CallV {
    pub action: Seq<char>,
    pub scope: Seq<char>,
    pub payload: ValueV,
}

pub open spec fn call_view(c: BrowserCall) -> CallV {
    CallV { action: c.action@, scope: c.scope@, payload: c.payload@ }
}

pub open spec fn call_result(r: Result<BrowserCall, String>) -> Result<CallV, Seq<char>> {
    match r {
        Ok(c) => Ok(call_view(c)),
        Err(e) => Err(e@),
    }
}

impl BrowserCall {
    pub fn new(action: &str, scope: &str, payload: Value) -> (r: BrowserCall)
        ensures
            call_view(r) == (CallV { action: action@, scope: scope@, payload: payload@ }),
    {
        BrowserCall { action: String::from_str(action), scope: String::from_str(scope), payload }
    }
}

/// The request for a known action: `{action, ..entries}` under its scope.
pub open spec fn action_call(a: Seq<char>, entries: Seq<(Seq<char>, ValueV)>) -> CallV {
    CallV {
        action: a,
        scope: scope_for_action_spec(a)->Some_0,
        payload: ValueV::Dict(seq![("action"@, ValueV::Str(a))] + entries),
    }
}

fn new_entries() -> (r: Vec<(String, Value)>)
    ensures
        entries_view(r@) == Seq::<(Seq<char>, ValueV)>::empty(),
{
    let r: Vec<(String, Value)> = Vec::new();
    assert(r@ =~= Seq::<(String, Value)>::empty());
    r
}

/// Builds the request for a known action.
pub fn call(action: &str, entries: Vec<(String, Value)>) -> (r: BrowserCall)
    requires
        scope_for_action_spec(action@) is Some,
    ensures
        call_view(r) == action_call(action@, entries_view(entries@)),
{
    let ghost tail = entries_view(entries@);
    let mut es = entries;
    let head = (String::from_str("action"), Value::Str(String::from_str(action)));
    es.insert(0, head);
    proof {
        lemma_entries_view(entries@);
        lemma_entries_view(es@);
        assert(entries_view(es@) =~= seq![("action"@, ValueV::Str(action@))] + tail);
    }
    let sc = match scope_for_action(action) {
        Some(s) => s,
        None => String::new(),
    };
    BrowserCall { action: String::from_str(action), scope: sc, payload: Value::Dict(es) }
}


// ---------------------------------------------------------------------------
// Network methods.

/// `network_log` / `failed_requests`: the network log, failed requests
/// only for the latter, filtered by the first argument where one is given.
pub open spec fn network_log_spec(m: Seq<char>, args: Seq<ValueV>) -> CallV {
    let e1: Seq<(Seq<char>, ValueV)> = if m == "failed_requests"@ {
        seq![("failed_only"@, ValueV::Bool(true))]
    } else {
        Seq::empty()
    };
    let e2 = match arg_at(args, 0) {
        Some(v) => e1.push(("url_contains"@, v)),
        None => e1,
    };
    action_call("network_log"@, e2)
}

pub fn network_log(method: &str, args: &[Value]) -> (r: Result<BrowserCall, String>)
    ensures
        call_result(r) == Ok::<CallV, Seq<char>>(network_log_spec(method@, values_view(args@))),
{
    proof {
        lemma_values_view(args@);
    }
    let mut entries = new_entries();
    if str_eq(method, "failed_requests") {
        put(&mut entries, "failed_only", Value::Bool(true));
    }
    if args.len() > 0 {
        put(&mut entries, "url_contains", clone_value(&args[0]));
    }
    proof {
        let e1: Seq<(Seq<char>, ValueV)> = if method@ == "failed_requests"@ {
            seq![("failed_only"@, ValueV::Bool(true))]
        } else {
            Seq::empty()
        };
        assert(e1 =~= (if method@ == "failed_requests"@ { Seq::<(Seq<char>, ValueV)>::empty().push(("failed_only"@, ValueV::Bool(true))) } else { Seq::empty() }));
        reveal_strlit("network_log");
        reveal_strlit("browser.inspect.network");
    }
    Ok(call("network_log", entries))
}

/// An action of a known scope that takes no arguments.
pub open spec fn no_arg_action_spec(a: Seq<char>, args: Seq<ValueV>) -> Result<CallV, Seq<char>> {
    match no_args_spec(a, args) {
        Ok(_) => Ok(action_call(a, Seq::empty())),
        Err(e) => Err(e),
    }
}

pub fn no_arg_action(action: &str, args: &[Value]) -> (r: Result<BrowserCall, String>)
    requires
        scope_for_action_spec(action@) is Some,
    ensures
        call_result(r) == no_arg_action_spec(action@, values_view(args@)),
{
    match no_args(action, args) {
        Ok(_) => Ok(call(action, new_entries())),
        Err(e) => Err(e),
    }
}

/// `s` without `prefix` where it starts with it, else `s`.
pub open spec fn strip_prefix_or_self(s: Seq<char>, prefix: Seq<char>) -> Seq<char> {
    if starts_with(s, prefix) {
        s.skip(prefix.len() as int)
    } else {
        s
    }
}

/// `wait_for_request` / `wait_for_response`: a polled network-log query
/// for the first entry whose URL holds the pattern.
pub open spec fn network_wait_spec(m: Seq<char>, args: Seq<ValueV>) -> Result<CallV, Seq<char>> {
    match expect_str_spec(m, args, 0) {
        Err(e) => Err(e),
        Ok(pattern) => match optional_int_spec(args, 1, 30000) {
            Err(e) => Err(e),
            Ok(t) => Ok(action_call("network_log"@, seq![
                ("url_contains"@, ValueV::Str(pattern)),
                ("limit"@, ValueV::Int(1)),
                ("wait_kind"@, ValueV::Str(strip_prefix_or_self(m, "wait_for_"@))),
                ("timeout_ms"@, ValueV::Int(t)),
            ])),
        },
    }
}

pub fn network_wait(method: &str, args: &[Value]) -> (r: Result<BrowserCall, String>)
    ensures
        call_result(r) == network_wait_spec(method@, values_view(args@)),
{
    let kind = if str_starts_with(method, "wait_for_") {
        let cs = crate::text::chars_of(method);
        proof {
            reveal_strlit("wait_for_");
        }
        let k = crate::text::substring(&cs, 9, cs.len());
        assert(cs@.subrange(9, cs@.len() as int) =~= method@.skip(9));
        k
    } else {
        String::from_str(method)
    };
    let pattern = match expect_str(method, args, 0) {
        Ok(p) => p,
        Err(e) => {
            return Err(e);
        },
    };
    let t = match optional_int(args, 1, 30000) {
        Ok(t) => t,
        Err(e) => {
            return Err(e);
        },
    };
    let mut entries = new_entries();
    put(&mut entries, "url_contains", Value::Str(pattern));
    put(&mut entries, "limit", Value::Int(1));
    put(&mut entries, "wait_kind", Value::Str(kind));
    put(&mut entries, "timeout_ms", Value::Int(t));
    proof {
        reveal_strlit("network_log");
        reveal_strlit("browser.inspect.network");
    }
    assert(entries_view(entries@) =~= seq![
        ("url_contains"@, ValueV::Str(pattern@)),
        ("limit"@, ValueV::Int(1)),
        ("wait_kind"@, ValueV::Str(strip_prefix_or_self(method@, "wait_for_"@))),
        ("timeout_ms"@, ValueV::Int(t as int)),
    ]);
    Ok(call("network_log", entries))
}

pub open spec fn is_network_method(m: Seq<char>) -> bool {
    m == "network_log"@ || m == "failed_requests"@ || m == "diagnose"@ || m == "wait_for_request"@
        || m == "wait_for_response"@
}

pub open spec fn network_prepare_spec(m: Seq<char>, args: Seq<ValueV>) -> Result<CallV, Seq<char>> {
    if m == "network_log"@ || m == "failed_requests"@ {
        Ok(network_log_spec(m, args))
    } else if m == "diagnose"@ {
        no_arg_action_spec("diagnose"@, args)
    } else {
        network_wait_spec(m, args)
    }
}

/// The request for a network observation method.
pub fn network_prepare(method: &str, args: &[Value]) -> (r: Result<BrowserCall, String>)
    requires
        is_network_method(method@),
    ensures
        call_result(r) == network_prepare_spec(method@, values_view(args@)),
{
    if str_eq(method, "network_log") || str_eq(method, "failed_requests") {
        network_log(method, args)
    } else if str_eq(method, "diagnose") {
        proof {
            reveal_strlit("diagnose");
            reveal_strlit("browser.inspect.network");
        }
        no_arg_action("diagnose", args)
    } else {
        network_wait(method, args)
    }
}

// ---------------------------------------------------------------------------
// Storage methods.

/// A string as a JavaScript double-quoted literal.
pub open spec fn js_string_spec(text: Seq<char>) -> Seq<char> {
    seq!['"'] + replace_char(replace_char(text, '\\', "\\\\"@), '"', "\\\""@) + seq!['"']
}

pub fn js_string(text: &str) -> (r: String)
    ensures
        r@ == js_string_spec(text@),
{
    let a = replace(text, '\\', "\\\\");
    let b = replace(a.as_str(), '"', "\\\"");
    let mut r = String::new();
    crate::text::push_char(&mut r, '"');
    r.append(b.as_str());
    crate::text::push_char(&mut r, '"');
    assert(r@ =~= js_string_spec(text@));
    r
}

/// A request that evaluates `expression` in the page under `scope`.
pub open spec fn eval_spec(expression: Seq<char>, scope: Seq<char>) -> CallV {
    CallV {
        action: "eval"@,
        scope,
        payload: ValueV::Dict(seq![("action"@, ValueV::Str("eval"@)), ("expression"@, ValueV::Str(expression))]),
    }
}

pub fn eval(expression: String, scope: &str) -> (r: BrowserCall)
    ensures
        call_view(r) == eval_spec(expression@, scope@),
{
    let mut es = new_entries();
    put(&mut es, "action", Value::Str(String::from_str("eval")));
    put(&mut es, "expression", Value::Str(expression));
    assert(entries_view(es@) =~= seq![("action"@, ValueV::Str("eval"@)), ("expression"@, ValueV::Str(expression@))]);
    BrowserCall::new("eval", scope, Value::Dict(es))
}

/// A request under `scope` whose payload names only the action.
pub open spec fn bare_call(a: Seq<char>, scope: Seq<char>) -> CallV {
    CallV { action: a, scope, payload: ValueV::Dict(seq![("action"@, ValueV::Str(a))]) }
}

fn bare(action: &str, scope: &str) -> (r: BrowserCall)
    ensures
        call_view(r) == bare_call(action@, scope@),
{
    let mut es = new_entries();
    put(&mut es, "action", Value::Str(String::from_str(action)));
    assert(entries_view(es@) =~= seq![("action"@, ValueV::Str(action@))]);
    BrowserCall::new(action, scope, Value::Dict(es))
}

/// `cookies`, `local_storage`, `session_storage`: a read of that storage.
pub open spec fn read_spec(m: Seq<char>, args: Seq<ValueV>) -> Result<CallV, Seq<char>> {
    match no_args_spec(m, args) {
        Ok(_) => Ok(bare_call(m, "browser.inspect.storage"@)),
        Err(e) => Err(e),
    }
}

pub fn read_prepare(method: &str, args: &[Value]) -> (r: Result<BrowserCall, String>)
    ensures
        call_result(r) == read_spec(method@, values_view(args@)),
{
    match no_args(method, args) {
        Ok(_) => Ok(bare(method, "browser.inspect.storage")),
        Err(e) => Err(e),
    }
}

/// `indexed_db_summary`: the IndexedDB summary.
pub fn indexed_prepare(args: &[Value]) -> (r: Result<BrowserCall, String>)
    ensures
        call_result(r) == read_spec("indexed_db_summary"@, values_view(args@)),
{
    read_prepare("indexed_db_summary", args)
}

pub open spec fn set_cookie_spec(args: Seq<ValueV>) -> Result<CallV, Seq<char>> {
    match expect_str_spec("set_cookie"@, args, 0) {
        Err(e) => Err(e),
        Ok(c) => Ok(eval_spec("document.cookie="@ + js_string_spec(c) + ";true"@, "browser.mutate.storage"@)),
    }
}

/// `set_cookie(text)`: assigns `document.cookie` in the page.
pub fn set_cookie(args: &[Value]) -> (r: Result<BrowserCall, String>)
    ensures
        call_result(r) == set_cookie_spec(values_view(args@)),
{
    let c = match expect_str("set_cookie", args, 0) {
        Ok(c) => c,
        Err(e) => {
            return Err(e);
        },
    };
    let mut x = String::from_str("document.cookie=");
    let q = js_string(c.as_str());
    x.append(q.as_str());
    x.append(";true");
    Ok(eval(x, "browser.mutate.storage"))
}

pub open spec fn set_local_spec(args: Seq<ValueV>) -> Result<CallV, Seq<char>> {
    match expect_str_spec("set_local_storage"@, args, 0) {
        Err(e) => Err(e),
        Ok(k) => match expect_str_spec("set_local_storage"@, args, 1) {
            Err(e) => Err(e),
            Ok(v) => Ok(eval_spec(
                "localStorage.setItem("@ + js_string_spec(k) + ","@ + js_string_spec(v) + ");true"@,
                "browser.mutate.storage"@,
            )),
        },
    }
}

/// `set_local_storage(key, value)`: a `localStorage.setItem` in the page.
pub fn set_local(args: &[Value]) -> (r: Result<BrowserCall, String>)
    ensures
        call_result(r) == set_local_spec(values_view(args@)),
{
    let k = match expect_str("set_local_storage", args, 0) {
        Ok(k) => k,
        Err(e) => {
            return Err(e);
        },
    };
    let v = match expect_str("set_local_storage", args, 1) {
        Ok(v) => v,
        Err(e) => {
            return Err(e);
        },
    };
    let mut x = String::from_str("localStorage.setItem(");
    let qk = js_string(k.as_str());
    x.append(qk.as_str());
    x.append(",");
    let qv = js_string(v.as_str());
    x.append(qv.as_str());
    x.append(");true");
    Ok(eval(x, "browser.mutate.storage"))
}

pub open spec fn clear_spec(args: Seq<ValueV>) -> Result<CallV, Seq<char>> {
    match no_args_spec("clear_storage"@, args) {
        Ok(_) => Ok(bare_call("clear_storage"@, "browser.mutate.storage"@)),
        Err(e) => Err(e),
    }
}

/// `clear_storage()`.
pub fn clear(args: &[Value]) -> (r: Result<BrowserCall, String>)
    ensures
        call_result(r) == clear_spec(values_view(args@)),
{
    match no_args("clear_storage", args) {
        Ok(_) => Ok(bare("clear_storage", "browser.mutate.storage")),
        Err(e) => Err(e),
    }
}

pub open spec fn storage_prepare_spec(m: Seq<char>, args: Seq<ValueV>) -> Result<CallV, Seq<char>> {
    if m == "cookies"@ || m == "local_storage"@ || m == "session_storage"@ {
        read_spec(m, args)
    } else if m == "indexed_db_summary"@ {
        read_spec("indexed_db_summary"@, args)
    } else if m == "set_cookie"@ {
        set_cookie_spec(args)
    } else if m == "set_local_storage"@ {
        set_local_spec(args)
    } else {
        clear_spec(args)
    }
}

pub open spec fn is_storage_method(m: Seq<char>) -> bool {
    m == "cookies"@ || m == "local_storage"@ || m == "session_storage"@ || m == "indexed_db_summary"@
        || m == "set_cookie"@ || m == "set_local_storage"@ || m == "clear_storage"@
}

/// The request for a storage method; writes go through page evaluation.
pub fn storage_prepare(method: &str, args: &[Value]) -> (r: Result<BrowserCall, String>)
    requires
        is_storage_method(method@),
    ensures
        call_result(r) == storage_prepare_spec(method@, values_view(args@)),
{
    if str_eq(method, "cookies") || str_eq(method, "local_storage") || str_eq(method, "session_storage") {
        read_prepare(method, args)
    } else if str_eq(method, "indexed_db_summary") {
        indexed_prepare(args)
    } else if str_eq(method, "set_cookie") {
        set_cookie(args)
    } else if str_eq(method, "set_local_storage") {
        set_local(args)
    } else {
        clear(args)
    }
}

// ---------------------------------------------------------------------------
// Visual methods.

pub open spec fn point_eval_spec(args: Seq<ValueV>) -> Result<CallV, Seq<char>> {
    match expect_int_spec("find_element_at"@, args, 0) {
        Err(e) => Err(e),
        Ok(x) => match expect_int_spec("find_element_at"@, args, 1) {
            Err(e) => Err(e),
            Ok(y) => Ok(eval_spec(
                "document.elementFromPoint("@ + int_text(x) + ","@ + int_text(y) + ")?.outerHTML || null"@,
                "browser.visual"@,
            )),
        },
    }
}

/// The page element at a point, as its outer HTML.
pub fn point_eval(args: &[Value]) -> (r: Result<BrowserCall, String>)
    ensures
        call_result(r) == point_eval_spec(values_view(args@)),
{
    let x = match expect_int("find_element_at", args, 0) {
        Ok(x) => x,
        Err(e) => {
            return Err(e);
        },
    };
    let y = match expect_int("find_element_at", args, 1) {
        Ok(y) => y,
        Err(e) => {
            return Err(e);
        },
    };
    let mut s = String::from_str("document.elementFromPoint(");
    let xs = i64_text(x);
    s.append(xs.as_str());
    s.append(",");
    let ys = i64_text(y);
    s.append(ys.as_str());
    s.append(")?.outerHTML || null");
    Ok(eval(s, "browser.visual"))
}

pub open spec fn raw_visual_spec(m: Seq<char>, args: Seq<ValueV>) -> Result<CallV, Seq<char>> {
    match expect_str_spec(m, args, 0) {
        Err(e) => Err(e),
        Ok(before) => {
            let base = seq![
                ("action"@, ValueV::Str("visual_compare"@)),
                ("mode"@, ValueV::Str(m)),
                ("before"@, ValueV::Str(before)),
            ];
            if m != "assert_screenshot_matches"@ {
                match expect_str_spec(m, args, 1) {
                    Err(e) => Err(e),
                    Ok(after) => Ok(CallV {
                        action: "visual_compare"@,
                        scope: "browser.visual"@,
                        payload: ValueV::Dict(base.push(("after"@, ValueV::Str(after)))),
                    }),
                }
            } else {
                Ok(CallV { action: "visual_compare"@, scope: "browser.visual"@, payload: ValueV::Dict(base) })
            }
        },
    }
}

/// A screenshot comparison; `assert_screenshot_matches` takes only the
/// baseline.
pub fn raw_visual(method: &str, args: &[Value]) -> (r: Result<BrowserCall, String>)
    ensures
        call_result(r) == raw_visual_spec(method@, values_view(args@)),
{
    let before = match expect_str(method, args, 0) {
        Ok(b) => b,
        Err(e) => {
            return Err(e);
        },
    };
    let mut es = new_entries();
    put(&mut es, "action", Value::Str(String::from_str("visual_compare")));
    put(&mut es, "mode", Value::Str(String::from_str(method)));
    put(&mut es, "before", Value::Str(before));
    let ghost base = entries_view(es@);
    assert(base =~= seq![
        ("action"@, ValueV::Str("visual_compare"@)),
        ("mode"@, ValueV::Str(method@)),
        ("before"@, ValueV::Str(before@)),
    ]);
    if !str_eq(method, "assert_screenshot_matches") {
        let after = match expect_str(method, args, 1) {
            Ok(a) => a,
            Err(e) => {
                return Err(e);
            },
        };
        put(&mut es, "after", Value::Str(after));
    }
    Ok(BrowserCall::new("visual_compare", "browser.visual", Value::Dict(es)))
}


// ---------------------------------------------------------------------------
// Wait and viewport methods.
//
// The scope table above has no entry for `wait_for_selector`,
// `wait_for_text`, `wait_for_network_idle` or `set_viewport`, so a request
// for one of them cannot be built: these mappings report argument errors,
// and are not to be called with valid arguments.

/// `wait_for_selector(selector)`: its argument error.
pub fn wait_selector(args: &[Value]) -> (r: Result<BrowserCall, String>)
    requires
        expect_str_spec("wait_for_selector"@, values_view(args@), 0) is Err,
    ensures
        call_result(r) == Err::<CallV, Seq<char>>(expect_str_spec("wait_for_selector"@, values_view(args@), 0)->Err_0),
{
    match expect_str("wait_for_selector", args, 0) {
        Err(e) => Err(e),
        // Excluded by the precondition.
        Ok(_) => Err(String::new()),
    }
}

/// `wait_for_text(text)`: its argument error.
pub fn wait_text(args: &[Value]) -> (r: Result<BrowserCall, String>)
    requires
        expect_str_spec("wait_for_text"@, values_view(args@), 0) is Err,
    ensures
        call_result(r) == Err::<CallV, Seq<char>>(expect_str_spec("wait_for_text"@, values_view(args@), 0)->Err_0),
{
    match expect_str("wait_for_text", args, 0) {
        Err(e) => Err(e),
        // Excluded by the precondition.
        Ok(_) => Err(String::new()),
    }
}

/// `wait_for_network_idle()`: its argument error.
pub fn wait_idle(args: &[Value]) -> (r: Result<BrowserCall, String>)
    requires
        no_args_spec("wait_for_network_idle"@, values_view(args@)) is Err,
    ensures
        call_result(r) == Err::<CallV, Seq<char>>(no_args_spec("wait_for_network_idle"@, values_view(args@))->Err_0),
{
    match no_args("wait_for_network_idle", args) {
        Err(e) => Err(e),
        // Excluded by the precondition.
        Ok(_) => Err(String::new()),
    }
}

/// `set_viewport(width, height)`: its argument error.
pub fn viewport_prepare(args: &[Value]) -> (r: Result<BrowserCall, String>)
    requires
        expect_int_spec("set_viewport"@, values_view(args@), 0) is Err
            || expect_int_spec("set_viewport"@, values_view(args@), 1) is Err,
    ensures
        call_result(r) == Err::<CallV, Seq<char>>(match expect_int_spec("set_viewport"@, values_view(args@), 0) {
            Err(e) => e,
            Ok(_) => expect_int_spec("set_viewport"@, values_view(args@), 1)->Err_0,
        }),
{
    match expect_int("set_viewport", args, 0) {
        Err(e) => {
            return Err(e);
        },
        Ok(_) => {},
    }
    match expect_int("set_viewport", args, 1) {
        Err(e) => Err(e),
        // Excluded by the precondition.
        Ok(_) => Err(String::new()),
    }
}


/// `set_local_storage(key, value)` through page evaluation stores the first
/// argument as the key and the second as the value.
pub proof fn law_set_local_argument_order(k: Seq<char>, v: Seq<char>, rest: Seq<ValueV>)
    ensures
        set_local_spec(seq![ValueV::Str(k), ValueV::Str(v)] + rest) == Ok::<CallV, Seq<char>>(eval_spec(
            "localStorage.setItem("@ + js_string_spec(k) + ","@ + js_string_spec(v) + ");true"@,
            "browser.mutate.storage"@,
        )),
{
    let args = seq![ValueV::Str(k), ValueV::Str(v)] + rest;
    assert(args[0] == ValueV::Str(k));
    assert(args[1] == ValueV::Str(v));
}

} // verus!

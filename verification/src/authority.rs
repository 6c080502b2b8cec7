//! The capability gate in front of a remote browser: which scopes and
//! origins a holder may use, how a method call and its arguments become the
//! scope it needs and the payload that is posted, and how an authority is
//! narrowed into a weaker one.

use vstd::prelude::*;

use crate::origin::{
    normalize_origin, normalize_origin_spec, origin_spec, parse_url_spec, ParsedUrl,
};
use crate::text::{
    debug_quote, lemma_seq_less_irrefl, lemma_seq_less_total, lemma_seq_less_trans, quoted,
    seq_less, starts_with, str_eq, str_less, str_starts_with, trim_end_char, trim_end_matches_char,
};
use crate::call_args::{
    arg_at, expect_id_spec, expect_id_value, expect_int, expect_int_spec, expect_str,
    expect_str_spec, no_args, no_args_spec, optional_int, optional_int_spec, string_list,
    string_list_spec, unit_result, value_result,
};
use crate::trace::{
    agent_summary_spec, har_value_spec, minimal_repro_spec, observe_spec, trace_value_spec, BrowserTrace,
    EventV, TraceV,
};
use crate::value::{
    clone_value, dict_get, display, display_spec, entries_view, lemma_values_view, list_str, lookup,
    opt_str, opt_str_view, opt_view, put, str_list_view, strings_view, values_view, Value, ValueV,
};

verus! {

// ---------------------------------------------------------------------------
// Scope sets: strictly ascending lists of names.

pub open spec fn sorted_strict(s: Seq<Seq<char>>) -> bool {
    forall|i: int, j: int| 0 <= i < j < s.len() ==> seq_less(s[i], s[j])
}

/// Inserts `s` into a strictly ascending list, keeping it so.
pub fn insert_sorted(v: &mut Vec<String>, s: String)
    requires
        sorted_strict(strings_view(old(v)@)),
    ensures
        sorted_strict(strings_view(final(v)@)),
        strings_view(final(v)@).to_set() == strings_view(old(v)@).to_set().insert(s@),
{
    let ghost old_s = strings_view(v@);
    let mut i: usize = 0;
    while i < v.len() && str_less(v[i].as_str(), s.as_str())
        invariant
            i <= v@.len(),
            strings_view(v@) == old_s,
            sorted_strict(old_s),
            forall|j: int| 0 <= j < i ==> seq_less(#[trigger] old_s[j], s@),
        decreases v.len() - i,
    {
        i = i + 1;
    }
    if i < v.len() && v[i] == s {
        assert(old_s[i as int] == s@);
        assert(old_s.to_set() =~= old_s.to_set().insert(s@));
        return;
    }
    proof {
        if i < old_s.len() {
            lemma_seq_less_total(old_s[i as int], s@);
        }
    }
    v.insert(i, s);
    proof {
        let new_s = strings_view(v@);
        assert(new_s =~= old_s.insert(i as int, s@));
        assert forall|a: int, b: int| 0 <= a < b < new_s.len() implies seq_less(new_s[a], new_s[b]) by {
            if b < i {
            } else if b == i {
            } else if a < i {
                // new_s[a] < s < old_s[i] <= old_s[b - 1]
                if b - 1 > i {
                    lemma_seq_less_trans(s@, old_s[i as int], old_s[b - 1]);
                }
                lemma_seq_less_trans(old_s[a], s@, old_s[b - 1]);
            } else if a == i {
                if b - 1 > i {
                    lemma_seq_less_trans(s@, old_s[i as int], old_s[b - 1]);
                }
            } else {
            }
        }
        assert forall|x: Seq<char>| new_s.to_set().contains(x) <==> old_s.to_set().insert(s@).contains(x) by {
            if new_s.contains(x) {
                let k = choose|k: int| 0 <= k < new_s.len() && new_s[k] == x;
                if k < i {
                    assert(old_s[k] == x);
                } else if k > i {
                    assert(old_s[k - 1] == x);
                }
            }
            if old_s.contains(x) {
                let k = choose|k: int| 0 <= k < old_s.len() && old_s[k] == x;
                if k < i {
                    assert(new_s[k] == x);
                } else {
                    assert(new_s[k + 1] == x);
                }
            }
            if x == s@ {
                assert(new_s[i as int] == x);
            }
        }
        assert(new_s.to_set() =~= old_s.to_set().insert(s@));
    }
}

/// Whether a list of names holds `s`.
pub fn holds_name(v: &Vec<String>, s: &str) -> (r: bool)
    ensures
        r == strings_view(v@).contains(s@),
{
    let key = String::from_str(s);
    for i in 0..v.len()
        invariant
            key@ == s@,
            forall|j: int| 0 <= j < i ==> strings_view(v@)[j] != s@,
    {
        if v[i] == key {
            assert(strings_view(v@)[i as int] == s@);
            return true;
        }
    }
    false
}

/// A list of names as a strictly ascending list of the same names.
pub fn sorted_set(names: &Vec<String>) -> (r: Vec<String>)
    ensures
        sorted_strict(strings_view(r@)),
        strings_view(r@).to_set() == strings_view(names@).to_set(),
{
    let mut r: Vec<String> = Vec::new();
    assert(strings_view(r@).to_set() =~= Set::empty());
    for i in 0..names.len()
        invariant
            sorted_strict(strings_view(r@)),
            strings_view(r@).to_set() == strings_view(names@).take(i as int).to_set(),
    {
        insert_sorted(&mut r, names[i].clone());
        assert(strings_view(names@).take(i + 1) =~= strings_view(names@).take(i as int).push(names@[i as int]@));
        proof {
            strings_view(names@).take(i as int).lemma_push_to_set_commute(names@[i as int]@);
        }
    }
    assert(strings_view(names@).take(names@.len() as int) =~= strings_view(names@));
    r
}

// ---------------------------------------------------------------------------
// The authority.

/// Mathematical value of a [`BrowserAuthority`].
pub struct AuthorityV {
    pub endpoint: Seq<char>,
    pub origins: Seq<Seq<char>>,
    pub scopes: Set<Seq<char>>,
    pub path_prefix: Option<Seq<char>>,
    pub storage_scope: Option<Seq<char>>,
    pub human_approval: bool,
    pub timeout_ms: nat,
}

/// Milliseconds a bridge request may take.
pub const DEFAULT_TIMEOUT_MS: u64 = 30000;

/// A browser authority scoped to an HTTP bridge endpoint: the origins that
/// navigation may reach (all where the list is empty), the scopes granted,
/// an optional path prefix, an optional storage scope, and whether a human
/// approval gate blocks mutating calls.
#[derive(Debug, Clone)]
pub struct BrowserAuthority {
    endpoint: String,
    allowed_origins: Vec<String>,
    allowed_scopes: Vec<String>,
    path_prefix: Option<String>,
    storage_scope: Option<String>,
    human_approval: bool,
    timeout_ms: u64,
}

pub open spec fn all_scopes_spec() -> Seq<Seq<char>> {
    seq![
        "browser.navigate"@,
        "browser.interact"@,
        "browser.inspect.dom"@,
        "browser.inspect.network"@,
        "browser.inspect.console"@,
        "browser.inspect.storage"@,
        "browser.inspect.react"@,
        "browser.mutate.storage"@,
        "browser.replay.network"@,
        "browser.screenshot"@,
        "browser.visual"@,
    ]
}

pub open spec fn normalized_origins(origins: Seq<Seq<char>>) -> Seq<Seq<char>> {
    origins.map(|i: int, s: Seq<char>| normalize_origin_spec(s))
}

/// The error of a missing scope.
pub open spec fn scope_error(scope: Seq<char>) -> Seq<char> {
    "browser: scope `"@ + scope + "` not granted"@
}

/// The error of a call refused by the approval gate.
pub open spec fn approval_error(method: Seq<char>) -> Seq<char> {
    "browser."@ + method + ": human approval gate is enabled; host approval integration required"@
}

/// `{:?}` text of a list of strings.
pub open spec fn debug_items(xs: Seq<Seq<char>>) -> Seq<char>
    decreases xs.len(),
{
    if xs.len() == 0 {
        Seq::empty()
    } else if xs.len() == 1 {
        quoted(xs[0])
    } else {
        debug_items(xs.drop_last()) + ", "@ + quoted(xs.last())
    }
}

pub open spec fn debug_list(xs: Seq<Seq<char>>) -> Seq<char> {
    seq!['['] + debug_items(xs) + seq![']']
}

/// The navigation check: every URL passes where no origins are listed;
/// else its origin must be listed and its path must start with the prefix.
pub open spec fn origin_check_spec(a: AuthorityV, url: Seq<char>) -> Result<(), Seq<char>> {
    if a.origins.len() == 0 {
        Ok(())
    } else {
        match parse_url_spec(url) {
            Err(e) => Err(e),
            Ok(p) => if !a.origins.contains(origin_spec(p)) {
                Err("browser: origin "@ + origin_spec(p) + " is not in allowed set "@ + debug_list(a.origins))
            } else {
                match a.path_prefix {
                    Some(pre) => if !starts_with(p.path, pre) {
                        Err("browser: path "@ + p.path + " does not match required prefix "@ + pre)
                    } else {
                        Ok(())
                    },
                    None => Ok(()),
                }
            },
        }
    }
}

/// `{:?}` text of a list of strings.
pub fn debug_strings(xs: &Vec<String>) -> (r: String)
    ensures
        r@ == debug_list(strings_view(xs@)),
{
    let mut r = String::from_str("[");
    proof {
        reveal_strlit("[");
    }
    for i in 0..xs.len()
        invariant
            r@ == seq!['['] + debug_items(strings_view(xs@).take(i as int)),
    {
        let ghost before = strings_view(xs@).take(i as int);
        if i > 0 {
            r.append(", ");
        }
        let q = debug_quote(xs[i].as_str());
        r.append(q.as_str());
        proof {
            let after = strings_view(xs@).take(i + 1);
            assert(after.drop_last() =~= before);
            if i == 0 {
                assert(r@ =~= seq!['['] + debug_items(after));
            } else {
                assert(r@ =~= seq!['['] + debug_items(after));
            }
        }
    }
    r.append("]");
    proof {
        reveal_strlit("]");
    }
    assert(strings_view(xs@).take(xs@.len() as int) =~= strings_view(xs@));
    r
}

impl BrowserAuthority {
    pub closed spec fn view_v(&self) -> AuthorityV {
        AuthorityV {
            endpoint: self.endpoint@,
            origins: strings_view(self.allowed_origins@),
            scopes: strings_view(self.allowed_scopes@).to_set(),
            path_prefix: opt_view(self.path_prefix),
            storage_scope: opt_view(self.storage_scope),
            human_approval: self.human_approval,
            timeout_ms: self.timeout_ms as nat,
        }
    }

    /// The granted scopes are kept strictly ascending.
    pub closed spec fn wf(&self) -> bool {
        sorted_strict(strings_view(self.allowed_scopes@))
    }

    /// An authority for the bridge at `endpoint` (trailing `/` removed), with
    /// the origins reduced to `scheme://host[:port]` and the given scopes.
    pub fn new(endpoint: &str, origins: Vec<String>, scopes: Vec<String>) -> (r: BrowserAuthority)
        ensures
            r.wf(),
            r.view_v() == (AuthorityV {
                endpoint: trim_end_char(endpoint@, '/'),
                origins: normalized_origins(strings_view(origins@)),
                scopes: strings_view(scopes@).to_set(),
                path_prefix: None,
                storage_scope: None,
                human_approval: false,
                timeout_ms: DEFAULT_TIMEOUT_MS as nat,
            }),
    {
        let mut allowed_origins: Vec<String> = Vec::new();
        for i in 0..origins.len()
            invariant
                strings_view(allowed_origins@) == normalized_origins(strings_view(origins@)).take(i as int),
        {
            let c = origins[i].clone();
            assert(c@ == origins@[i as int]@);
            let o = normalize_origin(c);
            let ghost prev = allowed_origins@;
            assert(strings_view(prev).len() == i);
            allowed_origins.push(o);
            assert(allowed_origins@ == prev.push(o));
            assert(strings_view(origins@)[i as int] == origins@[i as int]@);
            assert(strings_view(allowed_origins@)[i as int] == o@);
            assert(strings_view(allowed_origins@)[i as int] == normalized_origins(strings_view(origins@))[i as int]);
            assert(strings_view(allowed_origins@) =~= normalized_origins(strings_view(origins@)).take(i + 1));
        }
        assert(normalized_origins(strings_view(origins@)).take(origins@.len() as int) =~= normalized_origins(strings_view(origins@)));
        let allowed_scopes = sorted_set(&scopes);
        BrowserAuthority {
            endpoint: trim_end_matches_char(endpoint, '/'),
            allowed_origins,
            allowed_scopes,
            path_prefix: None,
            storage_scope: None,
            human_approval: false,
            timeout_ms: DEFAULT_TIMEOUT_MS,
        }
    }

    /// Every scope that the browser capability knows.
    pub fn all_scopes() -> (r: Vec<String>)
        ensures
            strings_view(r@) == all_scopes_spec(),
    {
        let mut r: Vec<String> = Vec::new();
        r.push(String::from_str("browser.navigate"));
        r.push(String::from_str("browser.interact"));
        r.push(String::from_str("browser.inspect.dom"));
        r.push(String::from_str("browser.inspect.network"));
        r.push(String::from_str("browser.inspect.console"));
        r.push(String::from_str("browser.inspect.storage"));
        r.push(String::from_str("browser.inspect.react"));
        r.push(String::from_str("browser.mutate.storage"));
        r.push(String::from_str("browser.replay.network"));
        r.push(String::from_str("browser.screenshot"));
        r.push(String::from_str("browser.visual"));
        assert(strings_view(r@) =~= all_scopes_spec());
        r
    }

    /// Milliseconds a bridge request may take.
    pub fn timeout_ms(&self) -> (r: u64)
        ensures
            r as nat == self.view_v().timeout_ms,
    {
        self.timeout_ms
    }

    /// The bridge endpoint.
    pub fn endpoint(&self) -> (r: &String)
        ensures
            r@ == self.view_v().endpoint,
    {
        &self.endpoint
    }

    /// `Ok` exactly when `scope` is granted.
    pub fn require_scope(&self, scope: &str) -> (r: Result<(), String>)
        ensures
            unit_result(r) == (if self.view_v().scopes.contains(scope@) {
                Ok::<(), Seq<char>>(())
            } else {
                Err::<(), Seq<char>>(scope_error(scope@))
            }),
    {
        if holds_name(&self.allowed_scopes, scope) {
            Ok(())
        } else {
            let mut e = String::from_str("browser: scope `");
            e.append(scope);
            e.append("` not granted");
            Err(e)
        }
    }

    /// Checks a navigation target against the allowed origins and prefix.
    pub fn require_origin_url(&self, url: &str) -> (r: Result<(), String>)
        ensures
            unit_result(r) == origin_check_spec(self.view_v(), url@),
    {
        if self.allowed_origins.len() == 0 {
            return Ok(());
        }
        let parsed = match ParsedUrl::parse(url) {
            Ok(p) => p,
            Err(e) => {
                return Err(e);
            },
        };
        let origin = parsed.origin();
        if !holds_name(&self.allowed_origins, origin.as_str()) {
            let mut e = String::from_str("browser: origin ");
            e.append(origin.as_str());
            e.append(" is not in allowed set ");
            let d = debug_strings(&self.allowed_origins);
            e.append(d.as_str());
            return Err(e);
        }
        match &self.path_prefix {
            Some(prefix) => {
                if !str_starts_with(parsed.path.as_str(), prefix.as_str()) {
                    let mut e = String::from_str("browser: path ");
                    e.append(parsed.path.as_str());
                    e.append(" does not match required prefix ");
                    e.append(prefix.as_str());
                    return Err(e);
                }
                Ok(())
            },
            None => Ok(()),
        }
    }

    /// `Err` exactly when the human approval gate is on.
    pub fn approval_check(&self, method: &str) -> (r: Result<(), String>)
        ensures
            unit_result(r) == (if self.view_v().human_approval {
                Err::<(), Seq<char>>(approval_error(method@))
            } else {
                Ok::<(), Seq<char>>(())
            }),
    {
        if self.human_approval {
            let mut e = String::from_str("browser.");
            e.append(method);
            e.append(": human approval gate is enabled; host approval integration required");
            Err(e)
        } else {
            Ok(())
        }
    }
}


// ---------------------------------------------------------------------------
// Method calls: the scope each needs and the payload that is posted.

pub open spec fn call_result(r: Result<(String, Value), String>) -> Result<(Seq<char>, ValueV), Seq<char>> {
    match r {
        Ok((s, v)) => Ok((s@, v@)),
        Err(e) => Err(e@),
    }
}

pub open spec fn empty_dict() -> ValueV {
    ValueV::Dict(Seq::empty())
}

pub open spec fn storage_payload_spec(scope: Option<Seq<char>>) -> ValueV {
    ValueV::Dict(seq![("storage_scope"@, opt_str_view(scope))])
}

/// A call that takes no arguments.
pub open spec fn no_arg_call(m: Seq<char>, args: Seq<ValueV>, scope: Seq<char>, payload: ValueV) -> Result<(Seq<char>, ValueV), Seq<char>> {
    match no_args_spec(m, args) {
        Ok(_) => Ok((scope, payload)),
        Err(e) => Err(e),
    }
}

/// A call whose first argument is a string posted under `key`.
pub open spec fn str_call(m: Seq<char>, args: Seq<ValueV>, scope: Seq<char>, key: Seq<char>) -> Result<(Seq<char>, ValueV), Seq<char>> {
    match expect_str_spec(m, args, 0) {
        Ok(s) => Ok((scope, ValueV::Dict(seq![(key, ValueV::Str(s))]))),
        Err(e) => Err(e),
    }
}

/// A call with two string arguments, posted under `k1` and `k2`.
pub open spec fn str2_call(m: Seq<char>, args: Seq<ValueV>, scope: Seq<char>, k1: Seq<char>, k2: Seq<char>) -> Result<(Seq<char>, ValueV), Seq<char>> {
    match expect_str_spec(m, args, 0) {
        Err(e) => Err(e),
        Ok(a) => match expect_str_spec(m, args, 1) {
            Err(e) => Err(e),
            Ok(b) => Ok((scope, ValueV::Dict(seq![(k1, ValueV::Str(a)), (k2, ValueV::Str(b))]))),
        },
    }
}

/// A call with a string and an optional timeout (`default` where not given).
pub open spec fn str_timeout_call(m: Seq<char>, args: Seq<ValueV>, scope: Seq<char>, key: Seq<char>, default: int) -> Result<(Seq<char>, ValueV), Seq<char>> {
    match expect_str_spec(m, args, 0) {
        Err(e) => Err(e),
        Ok(s) => match optional_int_spec(args, 1, default) {
            Err(e) => Err(e),
            Ok(t) => Ok((scope, ValueV::Dict(seq![(key, ValueV::Str(s)), ("timeout_ms"@, ValueV::Int(t))]))),
        },
    }
}

/// A call whose first argument, of any type, is posted under `key`.
pub open spec fn id_call(m: Seq<char>, args: Seq<ValueV>, scope: Seq<char>, key: Seq<char>) -> Result<(Seq<char>, ValueV), Seq<char>> {
    match expect_id_spec(m, args, 0) {
        Ok(v) => Ok((scope, ValueV::Dict(seq![(key, v)]))),
        Err(e) => Err(e),
    }
}

pub open spec fn is_selector_method(m: Seq<char>) -> bool {
    m == "click"@ || m == "hover"@ || m == "focus"@ || m == "blur"@ || m == "screenshot_element"@
        || m == "bounding_box"@ || m == "is_visible"@
}

pub open spec fn selector_scope(m: Seq<char>) -> Seq<char> {
    if m == "screenshot_element"@ {
        "browser.screenshot"@
    } else if m == "bounding_box"@ || m == "is_visible"@ {
        "browser.visual"@
    } else {
        "browser.interact"@
    }
}

pub open spec fn is_text_method(m: Seq<char>) -> bool {
    m == "click_text"@ || m == "wait_for_text"@ || m == "find_visual_text"@
}

pub open spec fn text_scope(m: Seq<char>) -> Seq<char> {
    if m == "find_visual_text"@ {
        "browser.visual"@
    } else if m == "click_text"@ {
        "browser.interact"@
    } else {
        "browser.inspect.dom"@
    }
}

pub open spec fn is_console_method(m: Seq<char>) -> bool {
    m == "console_logs"@ || m == "console_errors"@ || m == "unhandled_rejections"@
        || m == "runtime_exceptions"@ || m == "source_mapped_stack_traces"@
}

pub open spec fn is_storage_read_method(m: Seq<char>) -> bool {
    m == "cookies"@ || m == "local_storage"@ || m == "session_storage"@ || m == "indexed_db_summary"@
}

pub open spec fn is_react_method(m: Seq<char>) -> bool {
    m == "react.detect"@ || m == "react.version"@ || m == "react.component_tree"@
        || m == "react.errors"@ || m == "react.hydration_warnings"@
        || m == "react.suspense_boundaries"@ || m == "frameworks"@
}

pub open spec fn is_react_id_method(m: Seq<char>) -> bool {
    m == "react.props"@ || m == "react.state"@ || m == "react.hooks"@ || m == "react.owner_stack"@
}

pub open spec fn is_export_method(m: Seq<char>) -> bool {
    m == "trace"@ || m == "export_trace_json"@ || m == "export_har"@ || m == "agent_summary"@
        || m == "minimal_reproduction_script"@
}

pub open spec fn goto_call(a: AuthorityV, args: Seq<ValueV>) -> Result<(Seq<char>, ValueV), Seq<char>> {
    match expect_str_spec("goto"@, args, 0) {
        Err(e) => Err(e),
        Ok(url) => match origin_check_spec(a, url) {
            Err(e) => Err(e),
            Ok(_) => Ok(("browser.navigate"@, ValueV::Dict(seq![("url"@, ValueV::Str(url))]))),
        },
    }
}

pub open spec fn scroll_call(args: Seq<ValueV>) -> Result<(Seq<char>, ValueV), Seq<char>> {
    let target = match arg_at(args, 0) {
        Some(v) => v,
        None => ValueV::Str("window"@),
    };
    match expect_int_spec("scroll"@, args, 1) {
        Err(e) => Err(e),
        Ok(n) => Ok(("browser.interact"@, ValueV::Dict(seq![("target"@, target), ("amount"@, ValueV::Int(n))]))),
    }
}

pub open spec fn idle_call(args: Seq<ValueV>) -> Result<(Seq<char>, ValueV), Seq<char>> {
    match optional_int_spec(args, 0, 5000) {
        Err(e) => Err(e),
        Ok(t) => Ok(("browser.inspect.network"@, ValueV::Dict(seq![("timeout_ms"@, ValueV::Int(t))]))),
    }
}

pub open spec fn replay_call(args: Seq<ValueV>) -> Result<(Seq<char>, ValueV), Seq<char>> {
    match expect_id_spec("replay_request"@, args, 0) {
        Err(e) => Err(e),
        Ok(id) => Ok(("browser.replay.network"@, ValueV::Dict(match arg_at(args, 1) {
            Some(patch) => seq![("id"@, id), ("body_patch"@, patch)],
            None => seq![("id"@, id)],
        }))),
    }
}

pub open spec fn set_cookie_call(args: Seq<ValueV>) -> Result<(Seq<char>, ValueV), Seq<char>> {
    match arg_at(args, 0) {
        None => Err("set_cookie expects cookie map"@),
        Some(c) => Ok(("browser.mutate.storage"@, ValueV::Dict(seq![("cookie"@, c)]))),
    }
}

pub open spec fn compare_call(m: Seq<char>, args: Seq<ValueV>) -> Result<(Seq<char>, ValueV), Seq<char>> {
    match arg_at(args, 0) {
        None => Err(m + " expects before"@),
        Some(before) => match arg_at(args, 1) {
            None => Err(m + " expects after"@),
            Some(after) => Ok(("browser.visual"@, ValueV::Dict(seq![("before"@, before), ("after"@, after)]))),
        },
    }
}

pub open spec fn point_call(args: Seq<ValueV>) -> Result<(Seq<char>, ValueV), Seq<char>> {
    match expect_int_spec("find_element_at"@, args, 0) {
        Err(e) => Err(e),
        Ok(x) => match expect_int_spec("find_element_at"@, args, 1) {
            Err(e) => Err(e),
            Ok(y) => Ok(("browser.visual"@, ValueV::Dict(seq![("x"@, ValueV::Int(x)), ("y"@, ValueV::Int(y))]))),
        },
    }
}

/// The scope that method `m` needs and the payload posted for it, or the
/// error that its arguments (or the origin check of `goto`) give.
pub open spec fn prepare_spec(a: AuthorityV, m: Seq<char>, args: Seq<ValueV>) -> Result<(Seq<char>, ValueV), Seq<char>> {
    if m == "goto"@ {
        goto_call(a, args)
    } else if m == "reload"@ || m == "back"@ || m == "forward"@ {
        no_arg_call(m, args, "browser.navigate"@, empty_dict())
    } else if is_selector_method(m) {
        str_call(m, args, selector_scope(m), "selector"@)
    } else if is_text_method(m) {
        str_timeout_call(m, args, text_scope(m), "text"@, 30000)
    } else if m == "type"@ {
        str2_call(m, args, "browser.interact"@, "selector"@, "text"@)
    } else if m == "press"@ {
        str_call(m, args, "browser.interact"@, "key"@)
    } else if m == "scroll"@ {
        scroll_call(args)
    } else if m == "wait_for_selector"@ {
        str_timeout_call(m, args, "browser.inspect.dom"@, "selector"@, 30000)
    } else if m == "wait_for_url"@ {
        str_timeout_call(m, args, "browser.navigate"@, "substring"@, 30000)
    } else if m == "wait_for_network_idle"@ {
        idle_call(args)
    } else if m == "screenshot"@ {
        no_arg_call(m, args, "browser.screenshot"@, empty_dict())
    } else if m == "dom_snapshot"@ || m == "page_snapshot"@ {
        no_arg_call(m, args, "browser.inspect.dom"@, empty_dict())
    } else if is_console_method(m) {
        no_arg_call(m, args, "browser.inspect.console"@, empty_dict())
    } else if m == "network_log"@ || m == "failed_requests"@ {
        no_arg_call(m, args, "browser.inspect.network"@, empty_dict())
    } else if m == "request"@ || m == "response"@ {
        id_call(m, args, "browser.inspect.network"@, "id"@)
    } else if m == "replay_request"@ {
        replay_call(args)
    } else if m == "wait_for_request"@ || m == "wait_for_response"@ {
        str_timeout_call(m, args, "browser.inspect.network"@, "url_pattern"@, 30000)
    } else if is_storage_read_method(m) {
        no_arg_call(m, args, "browser.inspect.storage"@, storage_payload_spec(a.storage_scope))
    } else if m == "set_cookie"@ {
        set_cookie_call(args)
    } else if m == "set_local_storage"@ {
        str2_call(m, args, "browser.mutate.storage"@, "key"@, "value"@)
    } else if m == "clear_storage"@ {
        no_arg_call(m, args, "browser.mutate.storage"@, storage_payload_spec(a.storage_scope))
    } else if is_react_method(m) {
        no_arg_call(m, args, "browser.inspect.react"@, empty_dict())
    } else if m == "react.component_for_selector"@ {
        str_call(m, args, "browser.inspect.react"@, "selector"@)
    } else if is_react_id_method(m) {
        id_call(m, args, "browser.inspect.react"@, "component_id"@)
    } else if m == "compare_screenshots"@ || m == "visual_diff"@ {
        compare_call(m, args)
    } else if m == "find_element_at"@ {
        point_call(args)
    } else if is_export_method(m) {
        no_arg_call(m, args, "browser.inspect.dom"@, empty_dict())
    } else {
        Err("browser: no method `"@ + m + "`"@)
    }
}

fn no_arg_call_exec(method: &str, args: &[Value], scope: &str, payload: Value) -> (r: Result<(String, Value), String>)
    ensures
        call_result(r) == no_arg_call(method@, values_view(args@), scope@, payload@),
{
    match no_args(method, args) {
        Ok(_) => Ok((String::from_str(scope), payload)),
        Err(e) => Err(e),
    }
}

fn new_dict() -> (r: Vec<(String, Value)>)
    ensures
        entries_view(r@) == Seq::<(Seq<char>, ValueV)>::empty(),
{
    let r: Vec<(String, Value)> = Vec::new();
    assert(r@ =~= Seq::<(String, Value)>::empty());
    r
}

fn str_call_exec(method: &str, args: &[Value], scope: &str, key: &str) -> (r: Result<(String, Value), String>)
    ensures
        call_result(r) == str_call(method@, values_view(args@), scope@, key@),
{
    match expect_str(method, args, 0) {
        Ok(s) => {
            let mut es = new_dict();
            put(&mut es, key, Value::Str(s));
            Ok((String::from_str(scope), Value::Dict(es)))
        },
        Err(e) => Err(e),
    }
}

fn str2_call_exec(method: &str, args: &[Value], scope: &str, k1: &str, k2: &str) -> (r: Result<(String, Value), String>)
    ensures
        call_result(r) == str2_call(method@, values_view(args@), scope@, k1@, k2@),
{
    let a = match expect_str(method, args, 0) {
        Ok(a) => a,
        Err(e) => {
            return Err(e);
        },
    };
    let b = match expect_str(method, args, 1) {
        Ok(b) => b,
        Err(e) => {
            return Err(e);
        },
    };
    let mut es = new_dict();
    put(&mut es, k1, Value::Str(a));
    put(&mut es, k2, Value::Str(b));
    assert(entries_view(es@) =~= seq![(k1@, ValueV::Str(a@)), (k2@, ValueV::Str(b@))]);
    Ok((String::from_str(scope), Value::Dict(es)))
}

fn str_timeout_call_exec(method: &str, args: &[Value], scope: &str, key: &str, default: i64) -> (r: Result<(String, Value), String>)
    ensures
        call_result(r) == str_timeout_call(method@, values_view(args@), scope@, key@, default as int),
{
    let s = match expect_str(method, args, 0) {
        Ok(s) => s,
        Err(e) => {
            return Err(e);
        },
    };
    let t = match optional_int(args, 1, default) {
        Ok(t) => t,
        Err(e) => {
            return Err(e);
        },
    };
    let mut es = new_dict();
    put(&mut es, key, Value::Str(s));
    put(&mut es, "timeout_ms", Value::Int(t));
    assert(entries_view(es@) =~= seq![(key@, ValueV::Str(s@)), ("timeout_ms"@, ValueV::Int(t as int))]);
    Ok((String::from_str(scope), Value::Dict(es)))
}

fn id_call_exec(method: &str, args: &[Value], scope: &str, key: &str) -> (r: Result<(String, Value), String>)
    ensures
        call_result(r) == id_call(method@, values_view(args@), scope@, key@),
{
    match expect_id_value(method, args, 0) {
        Ok(v) => {
            let mut es = new_dict();
            put(&mut es, key, v);
            Ok((String::from_str(scope), Value::Dict(es)))
        },
        Err(e) => Err(e),
    }
}

fn storage_payload(scope: &Option<String>) -> (r: Value)
    ensures
        r@ == storage_payload_spec(opt_view(*scope)),
{
    let mut es = new_dict();
    put(&mut es, "storage_scope", opt_str(scope));
    Value::Dict(es)
}

fn empty_map() -> (r: Value)
    ensures
        r@ == empty_dict(),
{
    Value::Dict(new_dict())
}


fn two_entries(k1: &str, v1: Value, k2: &str, v2: Value) -> (r: Value)
    ensures
        r@ == ValueV::Dict(seq![(k1@, v1@), (k2@, v2@)]),
{
    let mut es = new_dict();
    put(&mut es, k1, v1);
    put(&mut es, k2, v2);
    assert(entries_view(es@) =~= seq![(k1@, v1@), (k2@, v2@)]);
    Value::Dict(es)
}

fn one_entry(k1: &str, v1: Value) -> (r: Value)
    ensures
        r@ == ValueV::Dict(seq![(k1@, v1@)]),
{
    let mut es = new_dict();
    put(&mut es, k1, v1);
    assert(entries_view(es@) =~= seq![(k1@, v1@)]);
    Value::Dict(es)
}

fn arg_copy(args: &[Value], i: usize) -> (r: Option<Value>)
    ensures
        (r matches Some(v) ==> arg_at(values_view(args@), i as int) == Some(v@)),
        r is None ==> arg_at(values_view(args@), i as int) is None,
{
    proof {
        lemma_values_view(args@);
    }
    if i < args.len() {
        Some(clone_value(&args[i]))
    } else {
        None
    }
}

fn scroll_call_exec(args: &[Value]) -> (r: Result<(String, Value), String>)
    ensures
        call_result(r) == scroll_call(values_view(args@)),
{
    let target = match arg_copy(args, 0) {
        Some(v) => v,
        None => Value::Str(String::from_str("window")),
    };
    match expect_int("scroll", args, 1) {
        Err(e) => Err(e),
        Ok(n) => Ok((String::from_str("browser.interact"), two_entries("target", target, "amount", Value::Int(n)))),
    }
}

fn idle_call_exec(args: &[Value]) -> (r: Result<(String, Value), String>)
    ensures
        call_result(r) == idle_call(values_view(args@)),
{
    match optional_int(args, 0, 5000) {
        Err(e) => Err(e),
        Ok(t) => Ok((String::from_str("browser.inspect.network"), one_entry("timeout_ms", Value::Int(t)))),
    }
}

fn replay_call_exec(args: &[Value]) -> (r: Result<(String, Value), String>)
    ensures
        call_result(r) == replay_call(values_view(args@)),
{
    let id = match expect_id_value("replay_request", args, 0) {
        Ok(v) => v,
        Err(e) => {
            return Err(e);
        },
    };
    let payload = match arg_copy(args, 1) {
        Some(patch) => two_entries("id", id, "body_patch", patch),
        None => one_entry("id", id),
    };
    Ok((String::from_str("browser.replay.network"), payload))
}

fn set_cookie_call_exec(args: &[Value]) -> (r: Result<(String, Value), String>)
    ensures
        call_result(r) == set_cookie_call(values_view(args@)),
{
    match arg_copy(args, 0) {
        None => Err(String::from_str("set_cookie expects cookie map")),
        Some(c) => Ok((String::from_str("browser.mutate.storage"), one_entry("cookie", c))),
    }
}

fn compare_call_exec(method: &str, args: &[Value]) -> (r: Result<(String, Value), String>)
    ensures
        call_result(r) == compare_call(method@, values_view(args@)),
{
    let before = match arg_copy(args, 0) {
        Some(v) => v,
        None => {
            let mut e = String::from_str(method);
            e.append(" expects before");
            return Err(e);
        },
    };
    let after = match arg_copy(args, 1) {
        Some(v) => v,
        None => {
            let mut e = String::from_str(method);
            e.append(" expects after");
            return Err(e);
        },
    };
    Ok((String::from_str("browser.visual"), two_entries("before", before, "after", after)))
}

fn point_call_exec(args: &[Value]) -> (r: Result<(String, Value), String>)
    ensures
        call_result(r) == point_call(values_view(args@)),
{
    let x = match expect_int("find_element_at", args, 0) {
        Ok(x) => x,
        Err(e) => {
            return Err(e);
        },
    };
    let y = match expect_int("find_element_at", args, 1) {
        Ok(y) => y,
        Err(e) => {
            return Err(e);
        },
    };
    Ok((String::from_str("browser.visual"), two_entries("x", Value::Int(x), "y", Value::Int(y))))
}

impl BrowserAuthority {
    fn goto_call_exec(&self, args: &[Value]) -> (r: Result<(String, Value), String>)
        ensures
            call_result(r) == goto_call(self.view_v(), values_view(args@)),
    {
        let url = match expect_str("goto", args, 0) {
            Ok(u) => u,
            Err(e) => {
                return Err(e);
            },
        };
        match self.require_origin_url(url.as_str()) {
            Err(e) => Err(e),
            Ok(_) => Ok((String::from_str("browser.navigate"), one_entry("url", Value::Str(url)))),
        }
    }

    /// The scope that `method` needs and the payload to post for it.
    pub fn prepare_call(&self, method: &str, args: &[Value]) -> (r: Result<(String, Value), String>)
        ensures
            call_result(r) == prepare_spec(self.view_v(), method@, values_view(args@)),
    {
        let m = method;
        if str_eq(m, "goto") {
            self.goto_call_exec(args)
        } else if str_eq(m, "reload") || str_eq(m, "back") || str_eq(m, "forward") {
            no_arg_call_exec(m, args, "browser.navigate", empty_map())
        } else if str_eq(m, "click") || str_eq(m, "hover") || str_eq(m, "focus") || str_eq(m, "blur")
            || str_eq(m, "screenshot_element") || str_eq(m, "bounding_box") || str_eq(m, "is_visible") {
            let scope = if str_eq(m, "screenshot_element") {
                "browser.screenshot"
            } else if str_eq(m, "bounding_box") || str_eq(m, "is_visible") {
                "browser.visual"
            } else {
                "browser.interact"
            };
            str_call_exec(m, args, scope, "selector")
        } else if str_eq(m, "click_text") || str_eq(m, "wait_for_text") || str_eq(m, "find_visual_text") {
            let scope = if str_eq(m, "find_visual_text") {
                "browser.visual"
            } else if str_eq(m, "click_text") {
                "browser.interact"
            } else {
                "browser.inspect.dom"
            };
            str_timeout_call_exec(m, args, scope, "text", 30000)
        } else if str_eq(m, "type") {
            str2_call_exec(m, args, "browser.interact", "selector", "text")
        } else if str_eq(m, "press") {
            str_call_exec(m, args, "browser.interact", "key")
        } else if str_eq(m, "scroll") {
            scroll_call_exec(args)
        } else if str_eq(m, "wait_for_selector") {
            str_timeout_call_exec(m, args, "browser.inspect.dom", "selector", 30000)
        } else if str_eq(m, "wait_for_url") {
            str_timeout_call_exec(m, args, "browser.navigate", "substring", 30000)
        } else if str_eq(m, "wait_for_network_idle") {
            idle_call_exec(args)
        } else if str_eq(m, "screenshot") {
            no_arg_call_exec(m, args, "browser.screenshot", empty_map())
        } else if str_eq(m, "dom_snapshot") || str_eq(m, "page_snapshot") {
            no_arg_call_exec(m, args, "browser.inspect.dom", empty_map())
        } else if str_eq(m, "console_logs") || str_eq(m, "console_errors") || str_eq(m, "unhandled_rejections")
            || str_eq(m, "runtime_exceptions") || str_eq(m, "source_mapped_stack_traces") {
            no_arg_call_exec(m, args, "browser.inspect.console", empty_map())
        } else if str_eq(m, "network_log") || str_eq(m, "failed_requests") {
            no_arg_call_exec(m, args, "browser.inspect.network", empty_map())
        } else if str_eq(m, "request") || str_eq(m, "response") {
            id_call_exec(m, args, "browser.inspect.network", "id")
        } else if str_eq(m, "replay_request") {
            replay_call_exec(args)
        } else if str_eq(m, "wait_for_request") || str_eq(m, "wait_for_response") {
            str_timeout_call_exec(m, args, "browser.inspect.network", "url_pattern", 30000)
        } else if str_eq(m, "cookies") || str_eq(m, "local_storage") || str_eq(m, "session_storage")
            || str_eq(m, "indexed_db_summary") {
            no_arg_call_exec(m, args, "browser.inspect.storage", storage_payload(&self.storage_scope))
        } else if str_eq(m, "set_cookie") {
            set_cookie_call_exec(args)
        } else if str_eq(m, "set_local_storage") {
            str2_call_exec(m, args, "browser.mutate.storage", "key", "value")
        } else if str_eq(m, "clear_storage") {
            no_arg_call_exec(m, args, "browser.mutate.storage", storage_payload(&self.storage_scope))
        } else if str_eq(m, "react.detect") || str_eq(m, "react.version") || str_eq(m, "react.component_tree")
            || str_eq(m, "react.errors") || str_eq(m, "react.hydration_warnings")
            || str_eq(m, "react.suspense_boundaries") || str_eq(m, "frameworks") {
            no_arg_call_exec(m, args, "browser.inspect.react", empty_map())
        } else if str_eq(m, "react.component_for_selector") {
            str_call_exec(m, args, "browser.inspect.react", "selector")
        } else if str_eq(m, "react.props") || str_eq(m, "react.state") || str_eq(m, "react.hooks")
            || str_eq(m, "react.owner_stack") {
            id_call_exec(m, args, "browser.inspect.react", "component_id")
        } else if str_eq(m, "compare_screenshots") || str_eq(m, "visual_diff") {
            compare_call_exec(m, args)
        } else if str_eq(m, "find_element_at") {
            point_call_exec(args)
        } else if str_eq(m, "trace") || str_eq(m, "export_trace_json") || str_eq(m, "export_har")
            || str_eq(m, "agent_summary") || str_eq(m, "minimal_reproduction_script") {
            no_arg_call_exec(m, args, "browser.inspect.dom", empty_map())
        } else {
            let mut e = String::from_str("browser: no method `");
            e.append(m);
            e.append("`");
            Err(e)
        }
    }
}


// ---------------------------------------------------------------------------
// Narrowing.

pub open spec fn narrow_origins(a: AuthorityV, es: Seq<(Seq<char>, ValueV)>) -> Result<Seq<Seq<char>>, Seq<char>> {
    match dict_get(es, "origins"@) {
        None => Ok(a.origins),
        Some(v) => match string_list_spec(v, "browser.narrow origins"@) {
            Err(e) => Err(e),
            Ok(req) => {
                let n = normalized_origins(req);
                if a.origins.len() > 0 && !(forall|i: int| 0 <= i < n.len() ==> a.origins.contains(#[trigger] n[i])) {
                    Err("browser.narrow: requested origins are not a subset"@)
                } else {
                    Ok(n)
                }
            },
        },
    }
}

pub open spec fn narrow_scopes(a: AuthorityV, es: Seq<(Seq<char>, ValueV)>) -> Result<Set<Seq<char>>, Seq<char>> {
    match dict_get(es, "scopes"@) {
        None => Ok(a.scopes),
        Some(v) => match string_list_spec(v, "browser.narrow scopes"@) {
            Err(e) => Err(e),
            Ok(req) => if !(forall|i: int| 0 <= i < req.len() ==> a.scopes.contains(#[trigger] req[i])) {
                Err("browser.narrow: requested scopes are not a subset"@)
            } else {
                Ok(req.to_set())
            },
        },
    }
}

pub open spec fn narrow_prefix(a: AuthorityV, es: Seq<(Seq<char>, ValueV)>) -> Result<Option<Seq<char>>, Seq<char>> {
    match dict_get(es, "path_prefix"@) {
        Some(ValueV::Str(p)) => match a.path_prefix {
            Some(cur) => if !starts_with(p, cur) {
                Err("browser.narrow: path_prefix must extend current prefix"@)
            } else {
                Ok(Some(p))
            },
            None => Ok(Some(p)),
        },
        _ => Ok(a.path_prefix),
    }
}

pub open spec fn narrow_storage(a: AuthorityV, es: Seq<(Seq<char>, ValueV)>) -> Option<Seq<char>> {
    match dict_get(es, "storage_scope"@) {
        Some(ValueV::Str(s)) => Some(s),
        _ => a.storage_scope,
    }
}

pub open spec fn narrow_approval(a: AuthorityV, es: Seq<(Seq<char>, ValueV)>) -> bool {
    match dict_get(es, "human_approval"@) {
        Some(ValueV::Bool(b)) => b || a.human_approval,
        _ => a.human_approval,
    }
}

/// The authority that `params` narrows `a` to: requested origins and
/// scopes must lie within the current ones (origins are unrestricted where
/// none are listed), a new path prefix must extend the current one, and the
/// approval gate can be switched on but never off.
pub open spec fn narrow_spec(a: AuthorityV, params: ValueV) -> Result<AuthorityV, Seq<char>> {
    match params {
        ValueV::Dict(es) => match narrow_origins(a, es) {
            Err(e) => Err(e),
            Ok(origins) => match narrow_scopes(a, es) {
                Err(e) => Err(e),
                Ok(scopes) => match narrow_prefix(a, es) {
                    Err(e) => Err(e),
                    Ok(path_prefix) => Ok(AuthorityV {
                        endpoint: a.endpoint,
                        origins,
                        scopes,
                        path_prefix,
                        storage_scope: narrow_storage(a, es),
                        human_approval: narrow_approval(a, es),
                        timeout_ms: a.timeout_ms,
                    }),
                },
            },
        },
        _ => Err("browser.narrow: expected params map"@),
    }
}

fn clone_strings(v: &Vec<String>) -> (r: Vec<String>)
    ensures
        strings_view(r@) == strings_view(v@),
{
    let mut r: Vec<String> = Vec::new();
    for i in 0..v.len()
        invariant
            strings_view(r@) == strings_view(v@).take(i as int),
    {
        let c = v[i].clone();
        assert(c@ == v@[i as int]@);
        let ghost prev = r@;
        assert(strings_view(prev).len() == i);
        r.push(c);
        assert(r@ == prev.push(c));
        assert(strings_view(r@)[i as int] == c@);
        assert(strings_view(r@) =~= strings_view(v@).take(i + 1));
    }
    assert(strings_view(v@).take(v@.len() as int) =~= strings_view(v@));
    r
}

fn clone_opt(v: &Option<String>) -> (r: Option<String>)
    ensures
        opt_view(r) == opt_view(*v),
{
    match v {
        Some(s) => Some(s.clone()),
        None => None,
    }
}

impl BrowserAuthority {
    /// The weaker authority that `params` asks for, or why it cannot be had.
    pub fn narrow(&self, params: &Value) -> (r: Result<BrowserAuthority, String>)
        requires
            self.wf(),
        ensures
            (r matches Ok(n) ==> n.wf() && narrow_spec(self.view_v(), params@) == Ok::<AuthorityV, Seq<char>>(n.view_v())),
            (r matches Err(e) ==> narrow_spec(self.view_v(), params@) == Err::<AuthorityV, Seq<char>>(e@)),
    {
        let es = match params {
            Value::Dict(es) => es,
            _ => {
                return Err(String::from_str("browser.narrow: expected params map"));
            },
        };
        let ghost esv = entries_view(es@);
        assert(params@ == ValueV::Dict(esv));
        let mut allowed_origins = clone_strings(&self.allowed_origins);
        match lookup(es, "origins") {
            None => {},
            Some(v) => {
                let req = match string_list(v, "browser.narrow origins") {
                    Ok(x) => x,
                    Err(e) => {
                        return Err(e);
                    },
                };
                let ghost rv = req@.map(|i: int, s: String| s@);
                let mut normalized: Vec<String> = Vec::new();
                let mut inside = true;
                for i in 0..req.len()
                    invariant
                        rv == req@.map(|i: int, s: String| s@),
                        strings_view(normalized@) == normalized_origins(rv).take(i as int),
                        inside == (forall|j: int| 0 <= j < i ==> strings_view(self.allowed_origins@).contains(#[trigger] normalized_origins(rv)[j])),
                {
                    let c = req[i].clone();
                    assert(c@ == rv[i as int]);
                    let o = normalize_origin(c);
                    assert(o@ == normalized_origins(rv)[i as int]);
                    if !holds_name(&self.allowed_origins, o.as_str()) {
                        inside = false;
                    }
                    let ghost prev = normalized@;
                    assert(strings_view(prev).len() == i);
                    normalized.push(o);
                    assert(normalized@ == prev.push(o));
                    assert(strings_view(normalized@)[i as int] == o@);
                    assert(strings_view(normalized@) =~= normalized_origins(rv).take(i + 1));
                }
                assert(normalized_origins(rv).take(req@.len() as int) =~= normalized_origins(rv));
                if self.allowed_origins.len() > 0 && !inside {
                    return Err(String::from_str("browser.narrow: requested origins are not a subset"));
                }
                allowed_origins = normalized;
            },
        }
        assert(narrow_origins(self.view_v(), esv) == Ok::<Seq<Seq<char>>, Seq<char>>(strings_view(allowed_origins@)));
        let mut allowed_scopes = clone_strings(&self.allowed_scopes);
        match lookup(es, "scopes") {
            None => {},
            Some(v) => {
                let req = match string_list(v, "browser.narrow scopes") {
                    Ok(x) => x,
                    Err(e) => {
                        return Err(e);
                    },
                };
                let ghost rv = req@.map(|i: int, s: String| s@);
                let mut inside = true;
                for i in 0..req.len()
                    invariant
                        rv == req@.map(|i: int, s: String| s@),
                        inside == (forall|j: int| 0 <= j < i ==> strings_view(self.allowed_scopes@).to_set().contains(#[trigger] rv[j])),
                {
                    if !holds_name(&self.allowed_scopes, req[i].as_str()) {
                        assert(!strings_view(self.allowed_scopes@).to_set().contains(rv[i as int]));
                        inside = false;
                    }
                }
                if !inside {
                    return Err(String::from_str("browser.narrow: requested scopes are not a subset"));
                }
                let sorted = sorted_set(&req);
                assert(strings_view(req@) == rv);
                allowed_scopes = sorted;
            },
        }
        let mut path_prefix = clone_opt(&self.path_prefix);
        match lookup(es, "path_prefix") {
            Some(Value::Str(p)) => {
                match &self.path_prefix {
                    Some(current) => {
                        if !str_starts_with(p.as_str(), current.as_str()) {
                            return Err(String::from_str("browser.narrow: path_prefix must extend current prefix"));
                        }
                    },
                    None => {},
                }
                path_prefix = Some(p.clone());
            },
            _ => {},
        }
        let storage_scope = match lookup(es, "storage_scope") {
            Some(Value::Str(sc)) => Some(sc.clone()),
            _ => clone_opt(&self.storage_scope),
        };
        let human_approval = match lookup(es, "human_approval") {
            Some(Value::Bool(b)) => *b || self.human_approval,
            _ => self.human_approval,
        };
        Ok(BrowserAuthority {
            endpoint: self.endpoint.clone(),
            allowed_origins,
            allowed_scopes,
            path_prefix,
            storage_scope,
            human_approval,
            timeout_ms: self.timeout_ms,
        })
    }
}

/// Narrowing never widens, with one exception: the new scopes lie within
/// the old, the new origins within the old ones where those were
/// restricted, a path prefix only grows, the approval gate stays on once
/// on, and the endpoint and timeout are kept. The exception: a request that
/// names an empty origin list is granted, and an empty list allows every
/// origin, so such a request lifts an origin restriction.
pub proof fn law_narrow_never_widens(a: AuthorityV, params: ValueV)
    requires
        narrow_spec(a, params) is Ok,
    ensures
        ({
            let n = narrow_spec(a, params)->Ok_0;
            &&& n.scopes.subset_of(a.scopes)
            &&& (a.origins.len() > 0 ==> forall|i: int| 0 <= i < n.origins.len() ==> a.origins.contains(#[trigger] n.origins[i]))
            &&& (a.human_approval ==> n.human_approval)
            &&& (a.path_prefix matches Some(c) ==> (n.path_prefix matches Some(p) && starts_with(p, c)))
            &&& n.endpoint == a.endpoint
            &&& n.timeout_ms == a.timeout_ms
        }),
{
    let es = params->Dict_0;
    let n = narrow_spec(a, params)->Ok_0;
    match dict_get(es, "scopes"@) {
        None => {},
        Some(v) => {
            let req = string_list_spec(v, "browser.narrow scopes"@)->Ok_0;
            assert forall|x: Seq<char>| n.scopes.contains(x) implies a.scopes.contains(x) by {
                assert(req.to_set().contains(x));
                let k = choose|k: int| 0 <= k < req.len() && req[k] == x;
                assert(a.scopes.contains(req[k]));
            }
        },
    }
    match a.path_prefix {
        Some(c) => {
            match dict_get(es, "path_prefix"@) {
                Some(ValueV::Str(p)) => {},
                _ => {
                    assert(starts_with(c, c)) by {
                        assert(c.take(c.len() as int) =~= c);
                    }
                },
            }
        },
        None => {},
    }
}


// ---------------------------------------------------------------------------
// Description.

/// Two strictly ascending lists with the same elements are the same list.
pub proof fn lemma_sorted_unique(p: Seq<Seq<char>>, q: Seq<Seq<char>>)
    requires
        sorted_strict(p),
        sorted_strict(q),
        p.to_set() == q.to_set(),
    ensures
        p == q,
    decreases p.len(),
{
    if p.len() == 0 {
        if q.len() > 0 {
            assert(q.to_set().contains(q[0]));
            assert(!p.to_set().contains(q[0]));
        }
        assert(p =~= q);
    } else if q.len() == 0 {
        assert(p.to_set().contains(p[0]));
        assert(!q.to_set().contains(p[0]));
    } else {
        assert(p.to_set().contains(p[0]));
        assert(q.contains(p[0]));
        let k = choose|k: int| 0 <= k < q.len() && q[k] == p[0];
        assert(q.to_set().contains(q[0]));
        assert(p.contains(q[0]));
        let j = choose|j: int| 0 <= j < p.len() && p[j] == q[0];
        if k > 0 {
            // q[0] < q[k] == p[0], and p[0] <= p[j] == q[0]
            if j > 0 {
                lemma_seq_less_trans(q[0], p[0], p[j]);
            }
            lemma_seq_less_irrefl(q[0]);
        }
        assert(p[0] == q[0]);
        let p1 = p.drop_first();
        let q1 = q.drop_first();
        assert forall|x: Seq<char>| p1.to_set().contains(x) <==> q1.to_set().contains(x) by {
            if p1.contains(x) {
                let a = choose|a: int| 0 <= a < p1.len() && p1[a] == x;
                assert(p[a + 1] == x);
                assert(p.to_set().contains(x));
                assert(q.contains(x));
                let b = choose|b: int| 0 <= b < q.len() && q[b] == x;
                if b == 0 {
                    lemma_seq_less_irrefl(p[0]);
                    assert(seq_less(p[0], p[a + 1]));
                }
                assert(q1[b - 1] == x);
            }
            if q1.contains(x) {
                let a = choose|a: int| 0 <= a < q1.len() && q1[a] == x;
                assert(q[a + 1] == x);
                assert(q.to_set().contains(x));
                assert(p.contains(x));
                let b = choose|b: int| 0 <= b < p.len() && p[b] == x;
                if b == 0 {
                    lemma_seq_less_irrefl(q[0]);
                    assert(seq_less(q[0], q[a + 1]));
                }
                assert(p1[b - 1] == x);
            }
        }
        assert(p1.to_set() =~= q1.to_set());
        lemma_sorted_unique(p1, q1);
        assert(p =~= seq![p[0]] + p1);
        assert(q =~= seq![q[0]] + q1);
    }
}

/// The strictly ascending listing of a set of names.
pub open spec fn sorted_listing(s: Set<Seq<char>>) -> Seq<Seq<char>> {
    choose|q: Seq<Seq<char>>| sorted_strict(q) && q.to_set() == s
}

/// What `describe` reports of an authority.
pub open spec fn describe_spec(a: AuthorityV) -> ValueV {
    ValueV::Dict(seq![
        ("endpoint"@, ValueV::Str(a.endpoint)),
        ("origins"@, str_list_view(a.origins)),
        ("scopes"@, str_list_view(sorted_listing(a.scopes))),
        ("path_prefix"@, opt_str_view(a.path_prefix)),
        ("storage_scope"@, opt_str_view(a.storage_scope)),
        ("human_approval"@, ValueV::Bool(a.human_approval)),
    ])
}

impl BrowserAuthority {
    /// The authority's configuration as a map value; scopes in ascending order.
    pub fn describe(&self) -> (r: Value)
        requires
            self.wf(),
        ensures
            r@ == describe_spec(self.view_v()),
    {
        let ghost a = self.view_v();
        proof {
            let q = strings_view(self.allowed_scopes@);
            assert(sorted_strict(q) && q.to_set() == a.scopes);
            let c = sorted_listing(a.scopes);
            lemma_sorted_unique(q, c);
        }
        let mut es = new_dict();
        put(&mut es, "endpoint", Value::Str(self.endpoint.clone()));
        put(&mut es, "origins", list_str(&self.allowed_origins));
        put(&mut es, "scopes", list_str(&self.allowed_scopes));
        put(&mut es, "path_prefix", opt_str(&self.path_prefix));
        put(&mut es, "storage_scope", opt_str(&self.storage_scope));
        put(&mut es, "human_approval", Value::Bool(self.human_approval));
        assert(entries_view(es@) =~= describe_spec(a)->Dict_0);
        Value::Dict(es)
    }
}

/// Methods that act on the page or reach outside it; the approval gate
/// applies to these.
pub open spec fn is_mutating_spec(m: Seq<char>) -> bool {
    m == "goto"@ || m == "click"@ || m == "click_text"@ || m == "type"@ || m == "press"@
        || m == "hover"@ || m == "focus"@ || m == "blur"@ || m == "scroll"@ || m == "reload"@
        || m == "back"@ || m == "forward"@ || m == "set_cookie"@ || m == "set_local_storage"@
        || m == "clear_storage"@ || m == "replay_request"@
}

pub fn is_mutating_or_external(method: &str) -> (r: bool)
    ensures
        r == is_mutating_spec(method@),
{
    let m = method;
    str_eq(m, "goto") || str_eq(m, "click") || str_eq(m, "click_text") || str_eq(m, "type")
        || str_eq(m, "press") || str_eq(m, "hover") || str_eq(m, "focus") || str_eq(m, "blur")
        || str_eq(m, "scroll") || str_eq(m, "reload") || str_eq(m, "back") || str_eq(m, "forward")
        || str_eq(m, "set_cookie") || str_eq(m, "set_local_storage") || str_eq(m, "clear_storage")
        || str_eq(m, "replay_request")
}


// ---------------------------------------------------------------------------
// Calls through the bridge.

/// What a bridge reply means: `{ok: true, value|result}` gives the value
/// (nil where neither is present), `{ok: false, error}` an error naming the
/// method, and any other reply is the value itself.
pub open spec fn unwrap_spec(m: Seq<char>, parsed: ValueV) -> Result<ValueV, Seq<char>> {
    match parsed {
        ValueV::Dict(es) => match dict_get(es, "ok"@) {
            Some(ValueV::Bool(ok)) => if ok {
                Ok(match dict_get(es, "value"@) {
                    Some(v) => v,
                    None => match dict_get(es, "result"@) {
                        Some(v) => v,
                        None => ValueV::Nil,
                    },
                })
            } else {
                Err("browser."@ + m + ": "@ + match dict_get(es, "error"@) {
                    Some(v) => display_spec(v),
                    None => "unknown bridge error"@,
                })
            },
            _ => Ok(parsed),
        },
        _ => Ok(parsed),
    }
}

/// Interprets a parsed bridge reply to `method`.
pub fn unwrap_bridge_response(method: &str, parsed: Value) -> (r: Result<Value, String>)
    ensures
        value_result(r) == unwrap_spec(method@, parsed@),
{
    if let Value::Dict(es) = &parsed {
        if let Some(Value::Bool(ok)) = lookup(es, "ok") {
            if *ok {
                let v = match lookup(es, "value") {
                    Some(v) => clone_value(v),
                    None => match lookup(es, "result") {
                        Some(v) => clone_value(v),
                        None => Value::Nil,
                    },
                };
                return Ok(v);
            }
            let msg = match lookup(es, "error") {
                Some(v) => display(v),
                None => String::from_str("unknown bridge error"),
            };
            let mut e = String::from_str("browser.");
            e.append(method);
            e.append(": ");
            e.append(msg.as_str());
            return Err(e);
        }
    }
    Ok(parsed)
}

/// What a call of `m` yields before anything is posted: its payload, or the
/// error of its arguments, of a scope that is not granted, or of the
/// approval gate on a mutating method.
pub open spec fn begin_spec(a: AuthorityV, m: Seq<char>, args: Seq<ValueV>) -> Result<ValueV, Seq<char>> {
    match prepare_spec(a, m, args) {
        Err(e) => Err(e),
        Ok((scope, payload)) => if !a.scopes.contains(scope) {
            Err(scope_error(scope))
        } else if is_mutating_spec(m) && a.human_approval {
            Err(approval_error(m))
        } else {
            Ok(payload)
        },
    }
}

impl BrowserAuthority {
    /// Checks a call of `method` and records it as an action: the payload
    /// that is then posted to `{endpoint}/{method}`. A refused call is not
    /// recorded.
    pub fn begin_call(&self, trace: &mut BrowserTrace, method: &str, args: &[Value], now: i64) -> (r: Result<Value, String>)
        ensures
            value_result(r) == begin_spec(self.view_v(), method@, values_view(args@)),
            r is Ok ==> final(trace).view_v() == (TraceV {
                actions: old(trace).view_v().actions.push(EventV { timestamp_ms: now as int, kind: "action"@, method: method@, data: r->Ok_0@ }),
                ..old(trace).view_v()
            }),
            r is Err ==> final(trace).view_v() == old(trace).view_v(),
    {
        let (scope, payload) = match self.prepare_call(method, args) {
            Ok(p) => p,
            Err(e) => {
                return Err(e);
            },
        };
        match self.require_scope(scope.as_str()) {
            Ok(_) => {},
            Err(e) => {
                return Err(e);
            },
        }
        if is_mutating_or_external(method) {
            match self.approval_check(method) {
                Ok(_) => {},
                Err(e) => {
                    return Err(e);
                },
            }
        }
        trace.record_action(method, clone_value(&payload), now);
        Ok(payload)
    }
}

/// Records the outcome of a posted call, an observation or an error, and
/// hands it back.
pub fn finish_call(trace: &mut BrowserTrace, method: &str, result: Result<Value, String>, now: i64) -> (r: Result<Value, String>)
    ensures
        value_result(r) == value_result(result),
        (result matches Ok(v) ==> final(trace).view_v() == observe_spec(old(trace).view_v(), method@, v@, now as int)),
        (result matches Err(e) ==> final(trace).view_v() == (TraceV {
            errors: old(trace).view_v().errors.push(EventV { timestamp_ms: now as int, kind: "error"@, method: method@, data: ValueV::Str(e@) }),
            ..old(trace).view_v()
        })),
{
    match result {
        Ok(v) => {
            trace.observe(method, &v, now);
            Ok(v)
        },
        Err(e) => {
            trace.record_error(method, e.clone(), now);
            Err(e)
        },
    }
}

/// How the capability answers a method: from its own configuration or
/// trace, by the bridge, or by the bridge with a local report where the
/// bridge call fails.
#[derive(Debug, Clone, Copy, PartialEq, Eq)]
pub enum InvokeRoute {
    Describe,
    Trace,
    Remote,
    RemoteOrHar,
    RemoteOrSummary,
    RemoteOrRepro,
}

pub open spec fn invoke_route_spec(m: Seq<char>) -> InvokeRoute {
    if m == "describe"@ {
        InvokeRoute::Describe
    } else if m == "trace"@ || m == "export_trace_json"@ {
        InvokeRoute::Trace
    } else if m == "export_har"@ {
        InvokeRoute::RemoteOrHar
    } else if m == "agent_summary"@ {
        InvokeRoute::RemoteOrSummary
    } else if m == "minimal_reproduction_script"@ {
        InvokeRoute::RemoteOrRepro
    } else {
        InvokeRoute::Remote
    }
}

pub fn invoke_route(method: &str) -> (r: InvokeRoute)
    ensures
        r == invoke_route_spec(method@),
{
    if str_eq(method, "describe") {
        InvokeRoute::Describe
    } else if str_eq(method, "trace") || str_eq(method, "export_trace_json") {
        InvokeRoute::Trace
    } else if str_eq(method, "export_har") {
        InvokeRoute::RemoteOrHar
    } else if str_eq(method, "agent_summary") {
        InvokeRoute::RemoteOrSummary
    } else if str_eq(method, "minimal_reproduction_script") {
        InvokeRoute::RemoteOrRepro
    } else {
        InvokeRoute::Remote
    }
}

/// A call that `begin_call` accepts needs a granted scope, and a mutating
/// call never passes while the approval gate is on.
pub proof fn law_gate_checks_scope_and_approval(a: AuthorityV, m: Seq<char>, args: Seq<ValueV>)
    requires
        begin_spec(a, m, args) is Ok,
    ensures
        prepare_spec(a, m, args) is Ok,
        a.scopes.contains(prepare_spec(a, m, args)->Ok_0.0),
        !(a.human_approval && is_mutating_spec(m)),
{
}

/// A `goto` call that `begin_call` accepts targets an allowed origin
/// (where origins are restricted).
pub proof fn law_goto_stays_in_origins(a: AuthorityV, args: Seq<ValueV>)
    requires
        begin_spec(a, "goto"@, args) is Ok,
    ensures
        expect_str_spec("goto"@, args, 0) is Ok,
        origin_check_spec(a, expect_str_spec("goto"@, args, 0)->Ok_0) is Ok,
        a.origins.len() > 0 ==> ({
            let p = parse_url_spec(expect_str_spec("goto"@, args, 0)->Ok_0);
            p is Ok && a.origins.contains(origin_spec(p->Ok_0))
        }),
{
}


impl BrowserAuthority {
    /// What `invoke` answers from the authority itself, with no scope check,
    /// no request and no change to the trace: `describe` gives the
    /// configuration, `trace` and `export_trace_json` the full trace stamped
    /// `now`; every other method goes to the bridge (`None`).
    pub fn local_answer(&self, trace: &BrowserTrace, method: &str, now: i64) -> (r: Option<Value>)
        requires
            self.wf(),
        ensures
            invoke_route_spec(method@) == InvokeRoute::Describe ==> (r matches Some(v) && v@ == describe_spec(self.view_v())),
            invoke_route_spec(method@) == InvokeRoute::Trace ==> (r matches Some(v) && v@ == trace_value_spec(trace.view_v(), now as int)),
            invoke_route_spec(method@) != InvokeRoute::Describe && invoke_route_spec(method@) != InvokeRoute::Trace ==> r is None,
    {
        match invoke_route(method) {
            InvokeRoute::Describe => Some(self.describe()),
            InvokeRoute::Trace => Some(trace.trace_value(now)),
            _ => None,
        }
    }
}

/// What `invoke` answers once the bridge call of `method` has settled (and
/// been recorded): `export_har`, `agent_summary` and
/// `minimal_reproduction_script` fall back to the local report built from
/// the trace, so they never fail; any other method answers the bridge's
/// result.
pub fn settle_invoke(trace: &BrowserTrace, method: &str, remote: Result<Value, String>) -> (r: Result<Value, String>)
    ensures
        (match invoke_route_spec(method@) {
            InvokeRoute::RemoteOrHar => r matches Ok(v) && v@ == (match remote { Ok(x) => x@, Err(_) => har_value_spec(trace.view_v()) }),
            InvokeRoute::RemoteOrSummary => r matches Ok(v) && v@ == (match remote { Ok(x) => x@, Err(_) => agent_summary_spec(trace.view_v()) }),
            InvokeRoute::RemoteOrRepro => r matches Ok(v) && v@ == (match remote { Ok(x) => x@, Err(_) => minimal_repro_spec(trace.view_v()) }),
            _ => value_result(r) == value_result(remote),
        }),
{
    let route = invoke_route(method);
    match remote {
        Ok(v) => Ok(v),
        Err(e) => match route {
            InvokeRoute::RemoteOrHar => Ok(trace.har_value()),
            InvokeRoute::RemoteOrSummary => Ok(trace.agent_summary()),
            InvokeRoute::RemoteOrRepro => Ok(trace.minimal_repro()),
            _ => Err(e),
        },
    }
}


impl BrowserAuthority {
    /// The URL that a call of `method` is posted to: `{endpoint}/{method}`.
    pub fn bridge_url(&self, method: &str) -> (r: String)
        ensures
            r@ == self.view_v().endpoint + "/"@ + method@,
    {
        let mut r = self.endpoint.clone();
        r.append("/");
        r.append(method);
        r
    }
}


/// `type(selector, text)` posts the first argument under `selector` and the
/// second under `text`; `set_local_storage(key, value)` posts the first under
/// `key` and the second under `value`. Further arguments are ignored.
pub proof fn law_two_string_payloads(a: AuthorityV, s: Seq<char>, t: Seq<char>, rest: Seq<ValueV>)
    ensures
        prepare_spec(a, "type"@, seq![ValueV::Str(s), ValueV::Str(t)] + rest)
            == Ok::<(Seq<char>, ValueV), Seq<char>>(("browser.interact"@, ValueV::Dict(seq![("selector"@, ValueV::Str(s)), ("text"@, ValueV::Str(t))]))),
        prepare_spec(a, "set_local_storage"@, seq![ValueV::Str(s), ValueV::Str(t)] + rest)
            == Ok::<(Seq<char>, ValueV), Seq<char>>(("browser.mutate.storage"@, ValueV::Dict(seq![("key"@, ValueV::Str(s)), ("value"@, ValueV::Str(t))]))),
{
    reveal_strlit("agent_summary");
    reveal_strlit("back");
    reveal_strlit("blur");
    reveal_strlit("bounding_box");
    reveal_strlit("clear_storage");
    reveal_strlit("click");
    reveal_strlit("click_text");
    reveal_strlit("compare_screenshots");
    reveal_strlit("console_errors");
    reveal_strlit("console_logs");
    reveal_strlit("cookies");
    reveal_strlit("dom_snapshot");
    reveal_strlit("export_har");
    reveal_strlit("export_trace_json");
    reveal_strlit("failed_requests");
    reveal_strlit("find_element_at");
    reveal_strlit("find_visual_text");
    reveal_strlit("focus");
    reveal_strlit("forward");
    reveal_strlit("frameworks");
    reveal_strlit("goto");
    reveal_strlit("hover");
    reveal_strlit("indexed_db_summary");
    reveal_strlit("is_visible");
    reveal_strlit("local_storage");
    reveal_strlit("minimal_reproduction_script");
    reveal_strlit("network_log");
    reveal_strlit("page_snapshot");
    reveal_strlit("press");
    reveal_strlit("react.component_for_selector");
    reveal_strlit("react.component_tree");
    reveal_strlit("react.detect");
    reveal_strlit("react.errors");
    reveal_strlit("react.hooks");
    reveal_strlit("react.hydration_warnings");
    reveal_strlit("react.owner_stack");
    reveal_strlit("react.props");
    reveal_strlit("react.state");
    reveal_strlit("react.suspense_boundaries");
    reveal_strlit("react.version");
    reveal_strlit("reload");
    reveal_strlit("replay_request");
    reveal_strlit("request");
    reveal_strlit("response");
    reveal_strlit("runtime_exceptions");
    reveal_strlit("screenshot");
    reveal_strlit("screenshot_element");
    reveal_strlit("scroll");
    reveal_strlit("session_storage");
    reveal_strlit("set_cookie");
    reveal_strlit("set_local_storage");
    reveal_strlit("source_mapped_stack_traces");
    reveal_strlit("trace");
    reveal_strlit("type");
    reveal_strlit("unhandled_rejections");
    reveal_strlit("visual_diff");
    reveal_strlit("wait_for_network_idle");
    reveal_strlit("wait_for_request");
    reveal_strlit("wait_for_response");
    reveal_strlit("wait_for_selector");
    reveal_strlit("wait_for_text");
    reveal_strlit("wait_for_url");
    assert("type"@.len() != "agent_summary"@.len());
    assert("type"@[0] != "back"@[0]);
    assert("type"@[0] != "blur"@[0]);
    assert("type"@.len() != "bounding_box"@.len());
    assert("type"@.len() != "clear_storage"@.len());
    assert("type"@.len() != "click"@.len());
    assert("type"@.len() != "click_text"@.len());
    assert("type"@.len() != "compare_screenshots"@.len());
    assert("type"@.len() != "console_errors"@.len());
    assert("type"@.len() != "console_logs"@.len());
    assert("type"@.len() != "cookies"@.len());
    assert("type"@.len() != "dom_snapshot"@.len());
    assert("type"@.len() != "export_har"@.len());
    assert("type"@.len() != "export_trace_json"@.len());
    assert("type"@.len() != "failed_requests"@.len());
    assert("type"@.len() != "find_element_at"@.len());
    assert("type"@.len() != "find_visual_text"@.len());
    assert("type"@.len() != "focus"@.len());
    assert("type"@.len() != "forward"@.len());
    assert("type"@.len() != "frameworks"@.len());
    assert("type"@[0] != "goto"@[0]);
    assert("type"@.len() != "hover"@.len());
    assert("type"@.len() != "indexed_db_summary"@.len());
    assert("type"@.len() != "is_visible"@.len());
    assert("type"@.len() != "local_storage"@.len());
    assert("type"@.len() != "minimal_reproduction_script"@.len());
    assert("type"@.len() != "network_log"@.len());
    assert("type"@.len() != "page_snapshot"@.len());
    assert("type"@.len() != "press"@.len());
    assert("type"@.len() != "react.component_for_selector"@.len());
    assert("type"@.len() != "react.component_tree"@.len());
    assert("type"@.len() != "react.detect"@.len());
    assert("type"@.len() != "react.errors"@.len());
    assert("type"@.len() != "react.hooks"@.len());
    assert("type"@.len() != "react.hydration_warnings"@.len());
    assert("type"@.len() != "react.owner_stack"@.len());
    assert("type"@.len() != "react.props"@.len());
    assert("type"@.len() != "react.state"@.len());
    assert("type"@.len() != "react.suspense_boundaries"@.len());
    assert("type"@.len() != "react.version"@.len());
    assert("type"@.len() != "reload"@.len());
    assert("type"@.len() != "replay_request"@.len());
    assert("type"@.len() != "request"@.len());
    assert("type"@.len() != "response"@.len());
    assert("type"@.len() != "runtime_exceptions"@.len());
    assert("type"@.len() != "screenshot"@.len());
    assert("type"@.len() != "screenshot_element"@.len());
    assert("type"@.len() != "scroll"@.len());
    assert("type"@.len() != "session_storage"@.len());
    assert("type"@.len() != "set_cookie"@.len());
    assert("type"@.len() != "set_local_storage"@.len());
    assert("type"@.len() != "source_mapped_stack_traces"@.len());
    assert("type"@.len() != "trace"@.len());
    assert("type"@.len() != "unhandled_rejections"@.len());
    assert("type"@.len() != "visual_diff"@.len());
    assert("type"@.len() != "wait_for_network_idle"@.len());
    assert("type"@.len() != "wait_for_request"@.len());
    assert("type"@.len() != "wait_for_response"@.len());
    assert("type"@.len() != "wait_for_selector"@.len());
    assert("type"@.len() != "wait_for_text"@.len());
    assert("type"@.len() != "wait_for_url"@.len());
    assert("set_local_storage"@.len() != "agent_summary"@.len());
    assert("set_local_storage"@.len() != "back"@.len());
    assert("set_local_storage"@.len() != "blur"@.len());
    assert("set_local_storage"@.len() != "bounding_box"@.len());
    assert("set_local_storage"@.len() != "clear_storage"@.len());
    assert("set_local_storage"@.len() != "click"@.len());
    assert("set_local_storage"@.len() != "click_text"@.len());
    assert("set_local_storage"@.len() != "compare_screenshots"@.len());
    assert("set_local_storage"@.len() != "console_errors"@.len());
    assert("set_local_storage"@.len() != "console_logs"@.len());
    assert("set_local_storage"@.len() != "cookies"@.len());
    assert("set_local_storage"@.len() != "dom_snapshot"@.len());
    assert("set_local_storage"@.len() != "export_har"@.len());
    assert("set_local_storage"@[0] != "export_trace_json"@[0]);
    assert("set_local_storage"@.len() != "failed_requests"@.len());
    assert("set_local_storage"@.len() != "find_element_at"@.len());
    assert("set_local_storage"@.len() != "find_visual_text"@.len());
    assert("set_local_storage"@.len() != "focus"@.len());
    assert("set_local_storage"@.len() != "forward"@.len());
    assert("set_local_storage"@.len() != "frameworks"@.len());
    assert("set_local_storage"@.len() != "goto"@.len());
    assert("set_local_storage"@.len() != "hover"@.len());
    assert("set_local_storage"@.len() != "indexed_db_summary"@.len());
    assert("set_local_storage"@.len() != "is_visible"@.len());
    assert("set_local_storage"@.len() != "local_storage"@.len());
    assert("set_local_storage"@.len() != "minimal_reproduction_script"@.len());
    assert("set_local_storage"@.len() != "network_log"@.len());
    assert("set_local_storage"@.len() != "page_snapshot"@.len());
    assert("set_local_storage"@.len() != "press"@.len());
    assert("set_local_storage"@.len() != "react.component_for_selector"@.len());
    assert("set_local_storage"@.len() != "react.component_tree"@.len());
    assert("set_local_storage"@.len() != "react.detect"@.len());
    assert("set_local_storage"@.len() != "react.errors"@.len());
    assert("set_local_storage"@.len() != "react.hooks"@.len());
    assert("set_local_storage"@.len() != "react.hydration_warnings"@.len());
    assert("set_local_storage"@[0] != "react.owner_stack"@[0]);
    assert("set_local_storage"@.len() != "react.props"@.len());
    assert("set_local_storage"@.len() != "react.state"@.len());
    assert("set_local_storage"@.len() != "react.suspense_boundaries"@.len());
    assert("set_local_storage"@.len() != "react.version"@.len());
    assert("set_local_storage"@.len() != "reload"@.len());
    assert("set_local_storage"@.len() != "replay_request"@.len());
    assert("set_local_storage"@.len() != "request"@.len());
    assert("set_local_storage"@.len() != "response"@.len());
    assert("set_local_storage"@.len() != "runtime_exceptions"@.len());
    assert("set_local_storage"@.len() != "screenshot"@.len());
    assert("set_local_storage"@.len() != "screenshot_element"@.len());
    assert("set_local_storage"@.len() != "scroll"@.len());
    assert("set_local_storage"@.len() != "session_storage"@.len());
    assert("set_local_storage"@.len() != "set_cookie"@.len());
    assert("set_local_storage"@.len() != "source_mapped_stack_traces"@.len());
    assert("set_local_storage"@.len() != "trace"@.len());
    assert("set_local_storage"@.len() != "type"@.len());
    assert("set_local_storage"@.len() != "unhandled_rejections"@.len());
    assert("set_local_storage"@.len() != "visual_diff"@.len());
    assert("set_local_storage"@.len() != "wait_for_network_idle"@.len());
    assert("set_local_storage"@.len() != "wait_for_request"@.len());
    assert("set_local_storage"@[0] != "wait_for_response"@[0]);
    assert("set_local_storage"@[0] != "wait_for_selector"@[0]);
    assert("set_local_storage"@.len() != "wait_for_text"@.len());
    assert("set_local_storage"@.len() != "wait_for_url"@.len());
    let args = seq![ValueV::Str(s), ValueV::Str(t)] + rest;
    assert(args[0] == ValueV::Str(s));
    assert(args[1] == ValueV::Str(t));
    assert(expect_str_spec("type"@, args, 0) == Ok::<Seq<char>, Seq<char>>(s));
    assert(expect_str_spec("type"@, args, 1) == Ok::<Seq<char>, Seq<char>>(t));
    assert(expect_str_spec("set_local_storage"@, args, 0) == Ok::<Seq<char>, Seq<char>>(s));
    assert(expect_str_spec("set_local_storage"@, args, 1) == Ok::<Seq<char>, Seq<char>>(t));
}

} // verus!

//! Page subresources: inlining fetched scripts into a page, the labels and
//! messages of resource loads, source-map references, and the cross-origin
//! checks on subresource requests.

use vstd::prelude::*;

use crate::navigation::{header, header_spec};
use crate::value::opt_view;
use crate::text::{
    chars_of, occurs_at, contains, eq_ignore_ascii_case, find, first_occ, lemma_first_occ_unique, lower,
    nat_digits, push_char, replace, replace_char, split_all, split_chars, str_contains, str_trim,
    substring, trim, u64_text,
};
use crate::url::{pairs_view, PairV};

verus! {

/// `&` and `"` escaped for an attribute value.
pub open spec fn escape_attr_spec(v: Seq<char>) -> Seq<char> {
    replace_char(replace_char(v, '&', "&amp;"@), '"', "&quot;"@)
}

pub fn escape_attr(value: &str) -> (r: String)
    ensures
        r@ == escape_attr_spec(value@),
{
    let a = replace(value, '&', "&amp;");
    replace(a.as_str(), '"', "&quot;")
}

/// The attribute that marks a script inlined from `url`.
pub open spec fn marker_spec(url: Seq<char>) -> Seq<char> {
    "data-agent-resource-script=\""@ + escape_attr_spec(url) + "\""@
}

pub fn marker(url: &str) -> (r: String)
    ensures
        r@ == marker_spec(url@),
{
    let mut r = String::from_str("data-agent-resource-script=\"");
    let e = escape_attr(url);
    r.append(e.as_str());
    r.append("\"");
    r
}

/// The page with the script from `url` appended, unless a script from that
/// URL is already inlined.
pub open spec fn append_script_spec(html: Seq<char>, url: Seq<char>, source: Seq<char>) -> Seq<char> {
    if contains(html, marker_spec(url)) {
        html
    } else {
        html + "<script data-agent-resource-script=\""@ + escape_attr_spec(url) + "\">"@ + source + "</script>"@
    }
}

pub fn append_script(html: String, url: &str, source: &str) -> (r: String)
    ensures
        r@ == append_script_spec(html@, url@, source@),
{
    let m = marker(url);
    if str_contains(html.as_str(), m.as_str()) {
        return html;
    }
    let mut html = html;
    html.append("<script data-agent-resource-script=\"");
    let e = escape_attr(url);
    html.append(e.as_str());
    html.append("\">");
    html.append(source);
    html.append("</script>");
    html
}

/// Kinds of page subresource.
#[derive(Debug, Clone, Copy, PartialEq, Eq)]
pub enum ResourceKind {
    Script,
    Stylesheet,
    Image,
    SourceMap,
}

pub open spec fn kind_name_spec(k: ResourceKind) -> Seq<char> {
    match k {
        ResourceKind::Script => "script"@,
        ResourceKind::Stylesheet => "stylesheet"@,
        ResourceKind::Image => "image"@,
        ResourceKind::SourceMap => "source map"@,
    }
}

/// The label of a resource kind in diagnostics.
pub fn name(kind: ResourceKind) -> (r: String)
    ensures
        r@ == kind_name_spec(kind),
{
    match kind {
        ResourceKind::Script => String::from_str("script"),
        ResourceKind::Stylesheet => String::from_str("stylesheet"),
        ResourceKind::Image => String::from_str("image"),
        ResourceKind::SourceMap => String::from_str("source map"),
    }
}

/// The message of a resource load that ended with a non-success status.
pub open spec fn failed_spec(kind: ResourceKind, reference: Seq<char>, url: Seq<char>, status: u16) -> Seq<char> {
    "failed external "@ + kind_name_spec(kind) + " resource: "@ + reference + " (resolved "@ + url + ") status "@
        + nat_digits(status as nat)
}

pub fn failed(kind: ResourceKind, reference: &str, url: &str, status: u16) -> (r: String)
    ensures
        r@ == failed_spec(kind, reference@, url@, status),
{
    let mut r = String::from_str("failed external ");
    let k = name(kind);
    r.append(k.as_str());
    r.append(" resource: ");
    r.append(reference);
    r.append(" (resolved ");
    r.append(url);
    r.append(") status ");
    let d = u64_text(status as u64);
    r.append(d.as_str());
    r
}

/// The source map that a script names: the text after
/// `sourceMappingURL=` on the last line that holds it, trimmed.
pub open spec fn mapping_url_spec(source: Seq<char>) -> Option<Seq<char>> {
    let lines = split_all(source, '\n');
    if exists|k: int| 0 <= k < lines.len() && contains(#[trigger] lines[k], "sourceMappingURL="@) {
        let k = choose|k: int| 0 <= k < lines.len() && contains(#[trigger] lines[k], "sourceMappingURL="@)
            && forall|j: int| k < j < lines.len() ==> !contains(#[trigger] lines[j], "sourceMappingURL="@);
        let line = lines[k];
        Some(trim(line.skip(first_occ(line, "sourceMappingURL="@) + 17)))
    } else {
        None
    }
}

pub fn mapping_url(source: &str) -> (r: Option<String>)
    ensures
        opt_view(r) == mapping_url_spec(source@),
{
    let cs = chars_of(source);
    let lines = split_chars(&cs, '\n');
    let ghost ls = split_all(source@, '\n');
    let pat = chars_of("sourceMappingURL=");
    proof {
        reveal_strlit("sourceMappingURL=");
    }
    let mut k = lines.len();
    while k > 0
        invariant
            k <= lines@.len(),
            lines@.len() == ls.len(),
            ls == split_all(source@, '\n'),
            pat@ == "sourceMappingURL="@,
            forall|i: int| 0 <= i < lines@.len() ==> (#[trigger] lines@[i])@ == ls[i],
            forall|j: int| k <= j < ls.len() ==> !contains(#[trigger] ls[j], "sourceMappingURL="@),
        decreases k,
    {
        let line = chars_of(lines[k - 1].as_str());
        match find(&line, &pat) {
            Some(p) => {
                proof {
                    reveal_strlit("sourceMappingURL=");
                    assert(pat@.len() == 17);
                    lemma_first_occ_unique(line@, pat@, p as int);
                    let kk = choose|kk: int| 0 <= kk < ls.len() && contains(#[trigger] ls[kk], "sourceMappingURL="@)
                        && forall|j: int| kk < j < ls.len() ==> !contains(#[trigger] ls[j], "sourceMappingURL="@);
                    assert(contains(ls[k - 1], "sourceMappingURL="@));
                    if kk < k - 1 {
                        assert(!contains(ls[k - 1], "sourceMappingURL="@));
                    }
                    if kk > k - 1 {
                        assert(!contains(ls[kk], "sourceMappingURL="@));
                    }
                }
                let rest = substring(&line, p + 17, line.len());
                assert(line@.subrange(p + 17, line@.len() as int) =~= line@.skip(p + 17));
                return Some(str_trim(rest.as_str()));
            },
            None => {},
        }
        k = k - 1;
    }
    None
}

/// A string as a single-quoted JavaScript literal.
pub open spec fn js_quote_char(c: char) -> Seq<char> {
    if c == '\\' {
        seq!['\\', '\\']
    } else if c == '\'' {
        seq!['\\', '\'']
    } else if c == '\n' {
        seq!['\\', 'n']
    } else if c == '\r' {
        seq!['\\', 'r']
    } else {
        seq![c]
    }
}

pub open spec fn js_quote_body(s: Seq<char>) -> Seq<char>
    decreases s.len(),
{
    if s.len() == 0 {
        Seq::empty()
    } else {
        js_quote_body(s.drop_last()) + js_quote_char(s.last())
    }
}

pub open spec fn quoted_spec(s: Seq<char>) -> Seq<char> {
    seq!['\''] + js_quote_body(s) + seq!['\'']
}

pub fn quoted(value: &str) -> (r: String)
    ensures
        r@ == quoted_spec(value@),
{
    let cs = chars_of(value);
    let mut out = String::new();
    push_char(&mut out, '\'');
    for i in 0..cs.len()
        invariant
            cs@ == value@,
            out@ == seq!['\''] + js_quote_body(value@.take(i as int)),
    {
        let c = cs[i];
        assert(value@.take(i + 1).drop_last() =~= value@.take(i as int));
        if c == '\\' {
            push_char(&mut out, '\\');
            push_char(&mut out, '\\');
        } else if c == '\'' {
            push_char(&mut out, '\\');
            push_char(&mut out, '\'');
        } else if c == '\n' {
            push_char(&mut out, '\\');
            push_char(&mut out, 'n');
        } else if c == '\r' {
            push_char(&mut out, '\\');
            push_char(&mut out, 'r');
        } else {
            push_char(&mut out, c);
        }
        assert(out@ =~= seq!['\''] + js_quote_body(value@.take(i + 1)));
    }
    push_char(&mut out, '\'');
    assert(value@.take(cs.len() as int) =~= value@);
    out
}

/// The expression that stands in for a dynamic import of a module that is
/// not available, whose resolved URL is `resolved`.
pub open spec fn rejection_spec(resolved: Seq<char>) -> Seq<char> {
    "Promise.reject(TypeError("@ + quoted_spec("Failed to fetch dynamically imported module: "@ + resolved) + "))"@
}

pub fn rejection(resolved: &str) -> (r: String)
    ensures
        r@ == rejection_spec(resolved@),
{
    let mut msg = String::from_str("Failed to fetch dynamically imported module: ");
    msg.append(resolved);
    let q = quoted(msg.as_str());
    let mut r = String::from_str("Promise.reject(TypeError(");
    r.append(q.as_str());
    r.append("))");
    r
}

/// Where a request's origin and target stand to each other.
#[derive(Debug)]
pub struct SecurityFacts {
    pub same_origin: bool,
    pub target_opaque: bool,
    pub allowed_by_policy: bool,
    pub request_origin: String,
    pub target_origin: String,
}

/// Why a subresource request is refused before it is sent: a cross-origin
/// target with a real origin that the page's policy does not allow.
pub open spec fn blocked_spec(target_opaque: bool, allowed: bool, from: Seq<char>, to: Seq<char>) -> Option<Seq<char>> {
    if target_opaque || allowed {
        None
    } else {
        Some("CORS blocked cross-origin request from "@ + from + " to "@ + to)
    }
}

pub fn blocked(facts: &SecurityFacts) -> (r: Option<String>)
    ensures
        opt_view(r) == blocked_spec(facts.target_opaque, facts.allowed_by_policy, facts.request_origin@, facts.target_origin@),
{
    if facts.target_opaque || facts.allowed_by_policy {
        None
    } else {
        let mut e = String::from_str("CORS blocked cross-origin request from ");
        e.append(facts.request_origin.as_str());
        e.append(" to ");
        e.append(facts.target_origin.as_str());
        Some(e)
    }
}

/// A cross-origin response is usable when it allows every origin (`*`) or
/// the requesting one (any case).
pub open spec fn cors_spec(same_origin: bool, target_opaque: bool, from: Seq<char>, to: Seq<char>, h: Seq<PairV>) -> Result<(), Seq<char>> {
    if same_origin || target_opaque {
        Ok(())
    } else {
        match header_spec(h, "access-control-allow-origin"@) {
            Some(v) => if v == "*"@ || lower(v) == lower(from) {
                Ok(())
            } else {
                Err("CORS blocked external resource from "@ + from + " to "@ + to)
            },
            None => Err("CORS blocked external resource from "@ + from + " to "@ + to),
        }
    }
}

pub fn validate_cors(facts: &SecurityFacts, headers: &Vec<(String, String)>) -> (r: Result<(), String>)
    ensures
        crate::call_args::unit_result(r) == cors_spec(facts.same_origin, facts.target_opaque, facts.request_origin@, facts.target_origin@, pairs_view(headers@)),
{
    if facts.same_origin || facts.target_opaque {
        return Ok(());
    }
    let allowed = match header(headers, "access-control-allow-origin") {
        Some(v) => v == String::from_str("*") || eq_ignore_ascii_case(v.as_str(), facts.request_origin.as_str()),
        None => false,
    };
    if allowed {
        Ok(())
    } else {
        let mut e = String::from_str("CORS blocked external resource from ");
        e.append(facts.request_origin.as_str());
        e.append(" to ");
        e.append(facts.target_origin.as_str());
        Err(e)
    }
}


/// The headers of a subresource request: the page's origin for a
/// cross-origin target, else the page's cookies where there are any.
pub open spec fn resource_headers_spec(same_origin: bool, page_origin: Seq<char>, cookie: Seq<char>) -> Seq<PairV> {
    if !same_origin {
        seq![("origin"@, page_origin)]
    } else if cookie.len() > 0 {
        seq![("cookie"@, cookie)]
    } else {
        Seq::empty()
    }
}

pub fn resource_headers(same_origin: bool, page_origin: String, cookie: String) -> (r: Vec<(String, String)>)
    ensures
        pairs_view(r@) == resource_headers_spec(same_origin, page_origin@, cookie@),
{
    let mut headers: Vec<(String, String)> = Vec::new();
    if !same_origin {
        headers.push((String::from_str("origin"), page_origin));
        assert(pairs_view(headers@) =~= seq![("origin"@, page_origin@)]);
        return headers;
    }
    if cookie.unicode_len() > 0 {
        headers.push((String::from_str("cookie"), cookie));
        assert(pairs_view(headers@) =~= seq![("cookie"@, cookie@)]);
    } else {
        assert(pairs_view(headers@) =~= Seq::<PairV>::empty());
    }
    headers
}

/// The message for a page resource that is not registered.
pub open spec fn missing_spec(kind: Seq<char>, reference: Seq<char>, resolved: Seq<char>) -> Seq<char> {
    "missing external "@ + kind + " resource: "@ + reference + " (resolved "@ + resolved + ")"@
}

pub fn missing(kind: &str, reference: &str, resolved: &str) -> (r: String)
    ensures
        r@ == missing_spec(kind@, reference@, resolved@),
{
    let mut r = String::from_str("missing external ");
    r.append(kind);
    r.append(" resource: ");
    r.append(reference);
    r.append(" (resolved ");
    r.append(resolved);
    r.append(")");
    r
}


/// A script from a URL is inlined at most once: appending it again, with
/// any source, leaves the page as it is.
pub proof fn law_append_script_once(html: Seq<char>, url: Seq<char>, source: Seq<char>, again: Seq<char>)
    ensures
        append_script_spec(append_script_spec(html, url, source), url, again) == append_script_spec(html, url, source),
{
    let once = append_script_spec(html, url, source);
    let m = marker_spec(url);
    if !contains(html, m) {
        reveal_strlit("<script data-agent-resource-script=\"");
        reveal_strlit("data-agent-resource-script=\"");
        reveal_strlit("\"");
        reveal_strlit("\">");
        let e = escape_attr_spec(url);
        let open = "<script data-agent-resource-script=\""@;
        let lead = "data-agent-resource-script=\""@;
        assert(open =~= "<script "@ + lead) by {
            reveal_strlit("<script ");
        }
        let k: int = html.len() as int + 8;
        assert(once =~= html + open + e + "\">"@ + source + "</script>"@);
        assert(once.subrange(k, k + m.len()) =~= m) by {
            assert(m =~= lead + e + "\""@);
            assert forall|j: int| 0 <= j < m.len() implies once[k + j] == m[j] by {
                if j < lead.len() {
                    assert(once[k + j] == open[8 + j]);
                } else if j < lead.len() + e.len() {
                    assert(once[k + j] == e[j - lead.len()]);
                } else {
                    assert(once[k + j] == "\">"@[0]);
                }
            }
        }
        assert(occurs_at(once, m, k));
    }
}

} // verus!

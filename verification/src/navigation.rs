//! Document navigation requests: the request model, how a redirect rewrites
//! a request, which responses redirect, and which scripts navigate.

use vstd::prelude::*;

use crate::text::{
    contains, eq_ignore_ascii_case, lower, nat_digits, str_contains, to_ascii_uppercase, u64_text,
    upper,
};
use crate::url::{pairs_view, PairV};
use crate::value::opt_view;

verus! {

/// A top-level document request.
#[derive(Debug)]
pub struct DocumentRequest {
    pub method: String,
    pub url: String,
    pub headers: Vec<(String, String)>,
    pub body: Option<String>,
}

/// Mathematical value of a [`DocumentRequest`].
pub struct RequestV {
    pub method: Seq<char>,
    pub url: Seq<char>,
    pub headers: Seq<PairV>,
    pub body: Option<Seq<char>>,
}

impl DocumentRequest {
    pub open spec fn view_v(&self) -> RequestV {
        RequestV { method: self.method@, url: self.url@, headers: pairs_view(self.headers@), body: opt_view(self.body) }
    }

    /// A request with the method upper-cased, no headers and no body.
    pub fn new(method: &str, url: &str) -> (r: DocumentRequest)
        ensures
            r.view_v() == (RequestV { method: upper(method@), url: url@, headers: Seq::empty(), body: None }),
    {
        let r = DocumentRequest {
            method: to_ascii_uppercase(method),
            url: String::from_str(url),
            headers: Vec::new(),
            body: None,
        };
        assert(pairs_view(r.headers@) =~= Seq::<PairV>::empty());
        r
    }

    /// A `GET` request.
    pub fn get(url: &str) -> (r: DocumentRequest)
        ensures
            r.view_v() == (RequestV { method: "GET"@, url: url@, headers: Seq::empty(), body: None }),
    {
        proof {
            reveal_strlit("GET");
            assert(upper("GET"@) =~= "GET"@);
        }
        Self::new("GET", url)
    }

    /// A url-encoded form `POST`.
    pub fn form_post(url: &str, body: String) -> (r: DocumentRequest)
        ensures
            r.view_v() == (RequestV {
                method: "POST"@,
                url: url@,
                headers: seq![("content-type"@, "application/x-www-form-urlencoded"@)],
                body: Some(body@),
            }),
    {
        proof {
            reveal_strlit("POST");
            assert(upper("POST"@) =~= "POST"@);
        }
        let r = Self::new("POST", url).with_header("content-type", "application/x-www-form-urlencoded");
        let r = r.with_body(body);
        assert(r.view_v().headers =~= seq![("content-type"@, "application/x-www-form-urlencoded"@)]);
        r
    }

    /// The request with one more header.
    pub fn with_header(self, name: &str, value: &str) -> (r: DocumentRequest)
        ensures
            r.view_v() == (RequestV { headers: self.view_v().headers.push((name@, value@)), ..self.view_v() }),
    {
        let mut r = self;
        let ghost before = r.headers@;
        r.headers.push((String::from_str(name), String::from_str(value)));
        assert(pairs_view(r.headers@) =~= pairs_view(before).push((name@, value@)));
        r
    }

    /// The request with a body.
    pub fn with_body(self, body: String) -> (r: DocumentRequest)
        ensures
            r.view_v() == (RequestV { body: Some(body@), ..self.view_v() }),
    {
        let mut r = self;
        r.body = Some(body);
        r
    }
}

/// Whether a redirect with `status` turns a request with `method` into a
/// body-less `GET`: always for 303, and for 301 and 302 unless the method is
/// `GET` or `HEAD`.
pub open spec fn rewrites_to_get_spec(status: u16, method: Seq<char>) -> bool {
    status == 303 || ((status == 301 || status == 302) && !(method == "GET"@ || method == "HEAD"@))
}

pub fn rewrites_to_get(status: u16, method: &str) -> (r: bool)
    ensures
        r == rewrites_to_get_spec(status, method@),
{
    let m = String::from_str(method);
    status == 303 || ((status == 301 || status == 302) && !(m == String::from_str("GET") || m == String::from_str("HEAD")))
}

pub open spec fn is_body_header(name: Seq<char>) -> bool {
    lower(name) == lower("content-type"@) || lower(name) == lower("content-length"@)
}

/// The headers other than `content-type` and `content-length` (any case).
pub open spec fn without_body_headers(h: Seq<PairV>) -> Seq<PairV> {
    h.filter(|p: PairV| !is_body_header(p.0))
}

pub fn remove_body_headers(headers: &mut Vec<(String, String)>)
    ensures
        pairs_view(final(headers)@) == without_body_headers(pairs_view(old(headers)@)),
{
    let ghost all = pairs_view(headers@);
    let mut kept: Vec<(String, String)> = Vec::new();
    assert(pairs_view(kept@) =~= all.take(0).filter(|p: PairV| !is_body_header(p.0)));
    for i in 0..headers.len()
        invariant
            all == pairs_view(headers@),
            pairs_view(kept@) == all.take(i as int).filter(|p: PairV| !is_body_header(p.0)),
    {
        proof {
            all.take(i as int).lemma_filter_push(all[i as int], |p: PairV| !is_body_header(p.0));
            assert(all.take(i + 1) =~= all.take(i as int).push(all[i as int]));
        }
        let name = headers[i].0.as_str();
        if !eq_ignore_ascii_case(name, "content-type") && !eq_ignore_ascii_case(name, "content-length") {
            let ghost before = kept@;
            kept.push((headers[i].0.clone(), headers[i].1.clone()));
            assert(pairs_view(kept@) =~= pairs_view(before).push(all[i as int]));
        }
    }
    assert(all.take(all.len() as int) =~= all);
    *headers = kept;
}

/// The request that a redirect with `status` leads to, at `resolved_url`
/// (the `Location` resolved against the request's URL).
pub open spec fn follow_spec(r: RequestV, status: u16, resolved_url: Seq<char>) -> RequestV {
    if rewrites_to_get_spec(status, r.method) {
        RequestV { method: "GET"@, url: resolved_url, headers: without_body_headers(r.headers), body: None }
    } else {
        RequestV { url: resolved_url, ..r }
    }
}

pub fn follow(request: DocumentRequest, status: u16, resolved_url: String) -> (r: DocumentRequest)
    ensures
        r.view_v() == follow_spec(request.view_v(), status, resolved_url@),
{
    let mut request = request;
    request.url = resolved_url;
    if rewrites_to_get(status, request.method.as_str()) {
        request.method = String::from_str("GET");
        request.body = None;
        remove_body_headers(&mut request.headers);
    }
    request
}

/// The value of the first header named `name` (any case).
pub open spec fn header_spec(h: Seq<PairV>, name: Seq<char>) -> Option<Seq<char>>
    decreases h.len(),
{
    if h.len() == 0 {
        None
    } else if lower(h[0].0) == lower(name) {
        Some(h[0].1)
    } else {
        header_spec(h.drop_first(), name)
    }
}

pub fn header(headers: &Vec<(String, String)>, name: &str) -> (r: Option<String>)
    ensures
        opt_view(r) == header_spec(pairs_view(headers@), name@),
{
    let ghost all = pairs_view(headers@);
    let mut i: usize = 0;
    assert(all.skip(0) =~= all);
    while i < headers.len()
        invariant
            i <= headers@.len(),
            all == pairs_view(headers@),
            header_spec(all, name@) == header_spec(all.skip(i as int), name@),
        decreases headers.len() - i,
    {
        let ghost rest = all.skip(i as int);
        assert(rest[0] == all[i as int]);
        if eq_ignore_ascii_case(headers[i].0.as_str(), name) {
            return Some(headers[i].1.clone());
        }
        assert(rest.drop_first() =~= all.skip(i + 1));
        i = i + 1;
    }
    None
}

pub open spec fn is_redirect_status(status: u16) -> bool {
    status == 301 || status == 302 || status == 303 || status == 307 || status == 308
}

/// The `Location` of a redirect response.
pub open spec fn redirect_location_spec(status: u16, h: Seq<PairV>) -> Option<Seq<char>> {
    if is_redirect_status(status) { header_spec(h, "location"@) } else { None }
}

pub fn redirect_location(status: u16, headers: &Vec<(String, String)>) -> (r: Option<String>)
    ensures
        opt_view(r) == redirect_location_spec(status, pairs_view(headers@)),
{
    if status == 301 || status == 302 || status == 303 || status == 307 || status == 308 {
        header(headers, "location")
    } else {
        None
    }
}

/// Whether a script's source reads like it navigates through `location`.
pub open spec fn looks_like_navigation_spec(s: Seq<char>) -> bool {
    contains(s, "location.href"@) || contains(s, "location.assign"@) || contains(s, "location.replace"@)
        || contains(s, "window.location"@)
}

pub fn looks_like_location_navigation(source: &str) -> (r: bool)
    ensures
        r == looks_like_navigation_spec(source@),
{
    str_contains(source, "location.href") || str_contains(source, "location.assign")
        || str_contains(source, "location.replace") || str_contains(source, "window.location")
}

/// The most redirects a document load follows.
pub const MAX_REDIRECTS: usize = 20;

/// What a document load does with a response.
#[derive(Debug)]
pub enum LoadStep {
    /// Follow the redirect to this `Location`.
    Redirect(String),
    /// The response is the document.
    Done,
    /// The load fails with this message.
    Failed(String),
}

pub open spec fn load_step_spec(redirects: nat, requested_url: Seq<char>, url: Seq<char>, status: u16, h: Seq<PairV>) -> Result<Option<Seq<char>>, Seq<char>> {
    match redirect_location_spec(status, h) {
        Some(loc) => if redirects == MAX_REDIRECTS as nat {
            Err("document redirect limit exceeded: "@ + requested_url)
        } else {
            Ok(Some(loc))
        },
        None => if 200 <= status < 300 {
            Ok(None)
        } else {
            Err("document navigation failed: "@ + url + " status "@ + nat_digits(status as nat))
        },
    }
}

pub open spec fn load_step_view(s: LoadStep) -> Result<Option<Seq<char>>, Seq<char>> {
    match s {
        LoadStep::Redirect(l) => Ok(Some(l@)),
        LoadStep::Done => Ok(None),
        LoadStep::Failed(e) => Err(e@),
    }
}

/// Decides what a document load does with the response to its request
/// for `url` after `redirects` redirects.
pub fn load_step(redirects: usize, requested_url: &str, url: &str, status: u16, headers: &Vec<(String, String)>) -> (r: LoadStep)
    requires
        redirects <= MAX_REDIRECTS,
    ensures
        load_step_view(r) == load_step_spec(redirects as nat, requested_url@, url@, status, pairs_view(headers@)),
{
    match redirect_location(status, headers) {
        Some(location) => {
            if redirects == MAX_REDIRECTS {
                let mut e = String::from_str("document redirect limit exceeded: ");
                e.append(requested_url);
                LoadStep::Failed(e)
            } else {
                LoadStep::Redirect(location)
            }
        },
        None => {
            if 200 <= status && status < 300 {
                LoadStep::Done
            } else {
                let mut e = String::from_str("document navigation failed: ");
                e.append(url);
                e.append(" status ");
                let d = u64_text(status as u64);
                e.append(d.as_str());
                LoadStep::Failed(e)
            }
        },
    }
}


/// The headers of a document request as sent: the page's cookies are added
/// under `cookie` unless the request names a cookie header (any case) or
/// there are none.
pub open spec fn document_headers_spec(h: Seq<PairV>, cookie: Seq<char>) -> Seq<PairV> {
    if exists|i: int| 0 <= i < h.len() && lower(#[trigger] h[i].0) == lower("cookie"@) {
        h
    } else if cookie.len() > 0 {
        h.push(("cookie"@, cookie))
    } else {
        h
    }
}

pub fn document_headers(request: &DocumentRequest, cookie: String) -> (r: Vec<(String, String)>)
    ensures
        pairs_view(r@) == document_headers_spec(request.view_v().headers, cookie@),
{
    let ghost h = pairs_view(request.headers@);
    let mut out: Vec<(String, String)> = Vec::new();
    let mut named = false;
    for i in 0..request.headers.len()
        invariant
            h == pairs_view(request.headers@),
            pairs_view(out@) == h.take(i as int),
            named == exists|j: int| 0 <= j < i && lower(#[trigger] h[j].0) == lower("cookie"@),
    {
        let name = request.headers[i].0.as_str();
        assert(h[i as int] == (request.headers@[i as int].0@, request.headers@[i as int].1@));
        let hit = eq_ignore_ascii_case(name, "cookie");
        if hit {
            named = true;
        }
        let ghost prev = out@;
        let a = request.headers[i].0.clone();
        let b = request.headers[i].1.clone();
        out.push((a, b));
        assert(pairs_view(out@) =~= pairs_view(prev).push(h[i as int]));
        assert(pairs_view(out@) =~= h.take(i + 1));
        assert(named == exists|j: int| 0 <= j < i + 1 && lower(#[trigger] h[j].0) == lower("cookie"@)) by {
            if hit {
                assert(lower(h[i as int].0) == lower("cookie"@));
            }
            if exists|j: int| 0 <= j < i + 1 && lower(#[trigger] h[j].0) == lower("cookie"@) {
                let j = choose|j: int| 0 <= j < i + 1 && lower(#[trigger] h[j].0) == lower("cookie"@);
                if j < i {
                    assert(exists|k: int| 0 <= k < i && lower(#[trigger] h[k].0) == lower("cookie"@));
                }
            }
        }
    }
    assert(h.take(h.len() as int) =~= h);
    if !named && cookie.unicode_len() > 0 {
        let ghost before = out@;
        out.push((String::from_str("cookie"), cookie));
        assert(pairs_view(out@) =~= pairs_view(before).push(("cookie"@, cookie@)));
    }
    out
}

/// The `method` attribute of a form, lower-cased; `get` where there is none.
pub open spec fn form_method_spec(attrs: Seq<PairV>) -> Seq<char> {
    match crate::dom_tree::attr_get(attrs, "method"@) {
        Some(m) => lower(m),
        None => "get"@,
    }
}

pub fn method(attrs: &Vec<(String, String)>) -> (r: String)
    ensures
        r@ == form_method_spec(pairs_view(attrs@)),
{
    proof {
        assert(crate::document::attrs_view(attrs@) =~= pairs_view(attrs@));
    }
    match crate::dom_tree::get_attr(attrs, "method") {
        Some(m) => crate::text::to_ascii_lowercase(m.as_str()),
        None => String::from_str("get"),
    }
}

/// Where a script that ran on the page at `from` has moved `location` to
/// `target`: the target, when it differs from `from` and the script reads
/// like a location navigation; else nothing to commit.
pub open spec fn script_navigation_spec(source: Seq<char>, from: Seq<char>, target: Seq<char>) -> Option<Seq<char>> {
    if target == from || !looks_like_navigation_spec(source) {
        None
    } else {
        Some(target)
    }
}

pub fn script_navigation(source: &str, from: &str, target: &str) -> (r: Option<String>)
    ensures
        opt_view(r) == script_navigation_spec(source@, from@, target@),
{
    if String::from_str(target) == String::from_str(from) || !looks_like_location_navigation(source) {
        None
    } else {
        Some(String::from_str(target))
    }
}


/// How a redirect rewrites a request: a 303, and a 301 or 302 of a request
/// whose method is neither `GET` nor `HEAD`, become a body-less `GET` that
/// keeps no `content-type` or `content-length` header; a 307 or 308, and a
/// 301 or 302 of a `GET` or `HEAD`, keep the method, body and headers. The
/// request always moves to the new url.
pub proof fn law_redirect_rewrites(r: RequestV, status: u16, url: Seq<char>)
    ensures
        follow_spec(r, status, url).url == url,
        (status == 303 || ((status == 301 || status == 302) && r.method != "GET"@ && r.method != "HEAD"@)) ==> {
            let f = follow_spec(r, status, url);
            &&& f.method == "GET"@
            &&& f.body is None
            &&& forall|k: int| 0 <= k < f.headers.len() ==> !is_body_header(#[trigger] f.headers[k].0)
        },
        (status == 307 || status == 308 || ((status == 301 || status == 302) && (r.method == "GET"@ || r.method == "HEAD"@))) ==> {
            let f = follow_spec(r, status, url);
            &&& f.method == r.method
            &&& f.body == r.body
            &&& f.headers == r.headers
        },
{
    let f = follow_spec(r, status, url);
    if rewrites_to_get_spec(status, r.method) {
        assert forall|k: int| 0 <= k < f.headers.len() implies !is_body_header(#[trigger] f.headers[k].0) by {
            r.headers.lemma_filter_pred(|p: PairV| !is_body_header(p.0), k);
        }
    }
}

} // verus!

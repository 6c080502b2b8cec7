//! URL helpers behind the page's `location`, `URL` and `URLSearchParams`
//! globals: splitting an absolute URL into its parts, resolving a reference
//! against a base, and the query-string entry list.

use vstd::prelude::*;

use crate::text::{
    has_char, is_last, last_pos,
    before_first, before_first_chars, chars_of, concat, contains, find, first_occ,
    lemma_first_occ_unique, push_char, replace, replace_char, rsplit_once, rsplit_once_chars,
    split_all, split_chars, split_once, split_once_chars, starts_with, str_contains, string_from,
    substring,
};

verus! {

/// The parts of a URL as the page's `location` object shows them.
#[derive(Debug, Clone, PartialEq, Eq)]
pub struct LocationParts {
    pub href: String,
    pub protocol: String,
    pub host: String,
    pub hostname: String,
    pub pathname: String,
    pub search: String,
    pub hash: String,
    pub origin: String,
}

/// Mathematical value of [`LocationParts`].
pub struct LocationV {
    pub href: Seq<char>,
    pub protocol: Seq<char>,
    pub host: Seq<char>,
    pub pathname: Seq<char>,
    pub search: Seq<char>,
    pub hash: Seq<char>,
    pub origin: Seq<char>,
}

impl LocationParts {
    pub open spec fn view_v(&self) -> LocationV {
        LocationV {
            href: self.href@,
            protocol: self.protocol@,
            host: self.host@,
            pathname: self.pathname@,
            search: self.search@,
            hash: self.hash@,
            origin: self.origin@,
        }
    }

    pub open spec fn wf(&self) -> bool {
        self.hostname@ == self.host@
    }
}

/// The text after `sep` in a split, or nothing.
pub open spec fn split_or(s: Seq<char>, c: char) -> (Seq<char>, Seq<char>) {
    match split_once(s, c) {
        Some(p) => p,
        None => (s, Seq::empty()),
    }
}

/// `prefix` followed by `s`, or nothing when `s` is empty.
pub open spec fn marked(prefix: char, s: Seq<char>) -> Seq<char> {
    if s.len() == 0 {
        Seq::empty()
    } else {
        seq![prefix] + s
    }
}

/// How an href splits into location parts: `scheme://host/path?query#hash`;
/// without `://` the parts are those of `http://localhost/`.
pub open spec fn location_spec(href: Seq<char>) -> LocationV {
    if contains(href, "://"@) {
        let i = first_occ(href, "://"@);
        let protocol = href.take(i).push(':');
        let rest = href.skip(i + 3);
        let (before_hash, h) = split_or(rest, '#');
        let (before_query, q) = split_or(before_hash, '?');
        let (host, pathname) = match split_once(before_query, '/') {
            Some((a, b)) => (a, seq!['/'] + b),
            None => (before_query, seq!['/']),
        };
        LocationV {
            href,
            protocol,
            host,
            pathname,
            search: marked('?', q),
            hash: marked('#', h),
            origin: protocol + "//"@ + host,
        }
    } else {
        LocationV {
            href,
            protocol: "http:"@,
            host: "localhost"@,
            pathname: "/"@,
            search: Seq::empty(),
            hash: Seq::empty(),
            origin: "http://localhost"@,
        }
    }
}

/// Resolution of a reference against a base that holds `://`.
pub open spec fn resolve_against(input: Seq<char>, base: Seq<char>) -> Seq<char> {
    if contains(input, "://"@) {
        input
    } else {
        let parts = location_spec(base);
        if starts_with(input, "//"@) {
            parts.protocol + input
        } else if input.len() > 0 && input[0] == '#' {
            before_first(base, '#') + input
        } else if input.len() > 0 && input[0] == '?' {
            before_first(before_first(base, '?'), '#') + input
        } else if input.len() > 0 && input[0] == '/' {
            parts.origin + input
        } else {
            let dir = match rsplit_once(parts.pathname, '/') {
                Some((d, _)) => d.push('/'),
                None => seq!['/'],
            };
            parts.origin + dir + input
        }
    }
}

/// An absolute URL for `href`: itself when it holds `://`, else resolved
/// against `http://localhost/`.
pub open spec fn normalize_url_spec(href: Seq<char>) -> Seq<char> {
    if contains(href, "://"@) {
        href
    } else {
        resolve_against(href, "http://localhost/"@)
    }
}

/// `input` resolved against `base`.
pub open spec fn resolve_url_spec(input: Seq<char>, base: Seq<char>) -> Seq<char> {
    if contains(input, "://"@) {
        input
    } else {
        resolve_against(input, normalize_url_spec(base))
    }
}

fn split_or_exec(s: &[char], c: char) -> (r: (String, String))
    ensures
        (r.0@, r.1@) == split_or(s@, c),
{
    match split_once_chars(s, c) {
        Some(p) => p,
        None => (string_from(s), String::new()),
    }
}

fn marked_exec(prefix: char, s: &str) -> (r: String)
    ensures
        r@ == marked(prefix, s@),
{
    if s.unicode_len() == 0 {
        String::new()
    } else {
        let mut r = String::new();
        push_char(&mut r, prefix);
        r.append(s);
        assert(r@ =~= seq![prefix] + s@);
        r
    }
}

/// Splits `href` into location parts.
pub fn parse_location(href: &str) -> (r: LocationParts)
    ensures
        r.view_v() == location_spec(href@),
        r.wf(),
{
    let cs = chars_of(href);
    let sep = chars_of("://");
    match find(&cs, &sep) {
        Some(i) => {
            proof {
                lemma_first_occ_unique(href@, "://"@, i as int);
                reveal_strlit("://");
            }
            let mut protocol = substring(&cs, 0, i);
            push_char(&mut protocol, ':');
            assert(i + 3 <= cs.len());
            let rest = chars_of(substring(&cs, i + 3, cs.len()).as_str());
            assert(cs@.subrange(0, i as int) =~= href@.take(i as int));
            assert(cs@.subrange(i + 3, cs@.len() as int) =~= href@.skip(i + 3));
            let (before_hash, h) = split_or_exec(&rest, '#');
            let bh = chars_of(before_hash.as_str());
            let (before_query, q) = split_or_exec(&bh, '?');
            let bq = chars_of(before_query.as_str());
            let (host, pathname) = match split_once_chars(&bq, '/') {
                Some((a, b)) => {
                    let mut p = String::new();
                    push_char(&mut p, '/');
                    p.append(b.as_str());
                    assert(p@ =~= seq!['/'] + b@);
                    (a, p)
                },
                None => {
                    let mut p = String::new();
                    push_char(&mut p, '/');
                    assert(p@ =~= seq!['/']);
                    (before_query, p)
                },
            };
            let mut origin = protocol.clone();
            origin.append("//");
            origin.append(host.as_str());
            LocationParts {
                href: String::from_str(href),
                protocol,
                hostname: host.clone(),
                host,
                pathname,
                search: marked_exec('?', q.as_str()),
                hash: marked_exec('#', h.as_str()),
                origin,
            }
        },
        None => LocationParts {
            href: String::from_str(href),
            protocol: String::from_str("http:"),
            host: String::from_str("localhost"),
            hostname: String::from_str("localhost"),
            pathname: String::from_str("/"),
            search: String::new(),
            hash: String::new(),
            origin: String::from_str("http://localhost"),
        },
    }
}

fn resolve_against_exec(input: &str, base: &str) -> (r: String)
    ensures
        r@ == resolve_against(input@, base@),
{
    if str_contains(input, "://") {
        return String::from_str(input);
    }
    let parts = parse_location(base);
    let ic = chars_of(input);
    let bc = chars_of(base);
    let dslash = chars_of("//");
    if crate::text::matches_at(&ic, &dslash, 0) {
        assert(starts_with(input@, "//"@) == crate::text::occurs_at(input@, "//"@, 0)) by {
            if 2 <= input@.len() {
                assert(input@.subrange(0, 2) =~= input@.take(2));
            }
        }
        return concat(parts.protocol.as_str(), input);
    }
    assert(!starts_with(input@, "//"@)) by {
        if 2 <= input@.len() {
            assert(input@.subrange(0, 2) =~= input@.take(2));
        }
    }
    if ic.len() > 0 && ic[0] == '#' {
        let head = before_first_chars(&bc, '#');
        return concat(head.as_str(), input);
    }
    if ic.len() > 0 && ic[0] == '?' {
        let head = before_first_chars(&bc, '?');
        let hc = chars_of(head.as_str());
        let head2 = before_first_chars(&hc, '#');
        return concat(head2.as_str(), input);
    }
    if ic.len() > 0 && ic[0] == '/' {
        return concat(parts.origin.as_str(), input);
    }
    let pc = chars_of(parts.pathname.as_str());
    let dir = match rsplit_once_chars(&pc, '/') {
        Some((d, _)) => {
            let mut d = d;
            push_char(&mut d, '/');
            d
        },
        None => {
            let mut d = String::new();
            push_char(&mut d, '/');
            assert(d@ =~= seq!['/']);
            d
        },
    };
    let mut r = parts.origin.clone();
    r.append(dir.as_str());
    r.append(input);
    r
}

/// An absolute URL for `href`.
pub fn normalize_url(href: &str) -> (r: String)
    ensures
        r@ == normalize_url_spec(href@),
{
    if str_contains(href, "://") {
        String::from_str(href)
    } else {
        resolve_against_exec(href, "http://localhost/")
    }
}

/// `input` resolved against `base`, as the page's `URL(input, base)`.
pub fn resolve_url(input: &str, base: &str) -> (r: String)
    ensures
        r@ == resolve_url_spec(input@, base@),
{
    if str_contains(input, "://") {
        return String::from_str(input);
    }
    let base = normalize_url(base);
    resolve_against_exec(input, base.as_str())
}

} // verus!

verus! {

pub type PairV = (Seq<char>, Seq<char>);

pub open spec fn pairs_view(s: Seq<(String, String)>) -> Seq<PairV> {
    Seq::new(s.len(), |i: int| (s[i].0@, s[i].1@))
}

/// `+` read as a space.
pub open spec fn decode_spec(s: Seq<char>) -> Seq<char> {
    replace_char(s, '+', " "@)
}

/// A space written as `+`.
pub open spec fn encode_spec(s: Seq<char>) -> Seq<char> {
    replace_char(s, ' ', "+"@)
}

/// One `key=value` piece of a query string as an entry.
pub open spec fn pair_of(part: Seq<char>) -> PairV {
    match split_once(part, '=') {
        Some((k, v)) => (decode_spec(k), decode_spec(v)),
        None => (decode_spec(part), decode_spec(Seq::empty())),
    }
}

/// Entries of the non-empty pieces, in order.
pub open spec fn pairs_of(parts: Seq<Seq<char>>) -> Seq<PairV>
    decreases parts.len(),
{
    if parts.len() == 0 {
        Seq::empty()
    } else if parts.last().len() == 0 {
        pairs_of(parts.drop_last())
    } else {
        pairs_of(parts.drop_last()).push(pair_of(parts.last()))
    }
}

/// Entries of a query string, with or without its leading `?`.
pub open spec fn parse_search_spec(init: Seq<char>) -> Seq<PairV> {
    let q = if init.len() > 0 && init[0] == '?' {
        init.skip(1)
    } else {
        init
    };
    if q.len() == 0 {
        Seq::empty()
    } else {
        pairs_of(split_all(q, '&'))
    }
}

/// `key=value` with spaces written as `+`.
pub open spec fn pair_text(p: PairV) -> Seq<char> {
    encode_spec(p.0) + seq!['='] + encode_spec(p.1)
}

/// The entries joined with `&`.
pub open spec fn serialize_spec(entries: Seq<PairV>) -> Seq<char>
    decreases entries.len(),
{
    if entries.len() == 0 {
        Seq::empty()
    } else if entries.len() == 1 {
        pair_text(entries[0])
    } else {
        serialize_spec(entries.drop_last()) + seq!['&'] + pair_text(entries.last())
    }
}

pub fn decode_query_component(input: &str) -> (r: String)
    ensures
        r@ == decode_spec(input@),
{
    replace(input, '+', " ")
}

pub fn encode_query_component(input: &str) -> (r: String)
    ensures
        r@ == encode_spec(input@),
{
    replace(input, ' ', "+")
}

fn pair_from_part(part: &str) -> (r: (String, String))
    ensures
        (r.0@, r.1@) == pair_of(part@),
{
    let pc = chars_of(part);
    match split_once_chars(&pc, '=') {
        Some((k, v)) => (decode_query_component(k.as_str()), decode_query_component(v.as_str())),
        None => {
            let empty = String::new();
            (decode_query_component(part), decode_query_component(empty.as_str()))
        },
    }
}

/// Entries of a query string.
pub fn parse_search_params(init: &str) -> (r: Vec<(String, String)>)
    ensures
        pairs_view(r@) == parse_search_spec(init@),
{
    let ic = chars_of(init);
    let q: Vec<char> = if ic.len() > 0 && ic[0] == '?' {
        let t = substring(&ic, 1, ic.len());
        assert(ic@.subrange(1, ic@.len() as int) =~= init@.skip(1));
        chars_of(t.as_str())
    } else {
        ic
    };
    let mut out: Vec<(String, String)> = Vec::new();
    if q.len() == 0 {
        assert(pairs_view(out@) =~= Seq::<PairV>::empty());
        return out;
    }
    let parts = split_chars(&q, '&');
    let ghost ps = split_all(q@, '&');
    for i in 0..parts.len()
        invariant
            parts@.len() == ps.len(),
            forall|k: int| 0 <= k < parts@.len() ==> (#[trigger] parts@[k])@ == ps[k],
            pairs_view(out@) == pairs_of(ps.take(i as int)),
    {
        assert(ps.take(i + 1).drop_last() =~= ps.take(i as int));
        let part = parts[i].as_str();
        if part.unicode_len() != 0 {
            let p = pair_from_part(part);
            out.push(p);
            assert(pairs_view(out@) =~= pairs_of(ps.take(i as int)).push(pair_of(ps[i as int])));
        }
    }
    assert(ps.take(parts@.len() as int) =~= ps);
    out
}

fn pair_text_exec(k: &str, v: &str) -> (r: String)
    ensures
        r@ == pair_text((k@, v@)),
{
    let mut r = encode_query_component(k);
    push_char(&mut r, '=');
    let e = encode_query_component(v);
    r.append(e.as_str());
    assert(r@ =~= encode_spec(k@) + seq!['='] + encode_spec(v@));
    r
}

/// The entries as a query string (no leading `?`).
pub fn serialize_search_params(entries: &[(String, String)]) -> (r: String)
    ensures
        r@ == serialize_spec(pairs_view(entries@)),
{
    let mut r = String::new();
    let ghost ev = pairs_view(entries@);
    for i in 0..entries.len()
        invariant
            ev == pairs_view(entries@),
            r@ == serialize_spec(ev.take(i as int)),
    {
        assert(ev.take(i + 1).drop_last() =~= ev.take(i as int));
        assert(ev.take(i + 1).last() == ev[i as int]);
        if i > 0 {
            push_char(&mut r, '&');
        } else {
            assert(ev.take(1)[0] == ev[0]);
        }
        let t = pair_text_exec(entries[i].0.as_str(), entries[i].1.as_str());
        r.append(t.as_str());
    }
    assert(ev.take(entries@.len() as int) =~= ev);
    r
}

/// The value of the first entry named `key`.
pub open spec fn get_spec(entries: Seq<PairV>, key: Seq<char>) -> Option<Seq<char>>
    decreases entries.len(),
{
    if entries.len() == 0 {
        None
    } else if entries[0].0 == key {
        Some(entries[0].1)
    } else {
        get_spec(entries.drop_first(), key)
    }
}

/// Whether some entry is named `key`.
pub open spec fn has_spec(entries: Seq<PairV>, key: Seq<char>) -> bool {
    exists|i: int| 0 <= i < entries.len() && entries[i].0 == key
}

/// The entries not named `key`, in order.
pub open spec fn without(entries: Seq<PairV>, key: Seq<char>) -> Seq<PairV>
    decreases entries.len(),
{
    if entries.len() == 0 {
        Seq::empty()
    } else if entries.last().0 != key {
        without(entries.drop_last(), key).push(entries.last())
    } else {
        without(entries.drop_last(), key)
    }
}

/// The entry list behind a `URLSearchParams` object.
#[derive(Debug, Clone, PartialEq, Eq)]
pub struct SearchParams {
    pub entries: Vec<(String, String)>,
}

impl SearchParams {
    pub open spec fn view_v(&self) -> Seq<PairV> {
        pairs_view(self.entries@)
    }

    /// `URLSearchParams(init)`.
    pub fn new(init: &str) -> (r: Self)
        ensures
            r.view_v() == parse_search_spec(init@),
    {
        SearchParams { entries: parse_search_params(init) }
    }

    /// `get(key)`: the first value, or `None` for JavaScript `null`.
    pub fn get(&self, key: &str) -> (r: Option<String>)
        ensures
            r matches Some(v) ==> get_spec(self.view_v(), key@) == Some(v@),
            r is None ==> get_spec(self.view_v(), key@) is None,
    {
        let ghost ev = self.view_v();
        let k = String::from_str(key);
        assert(ev.skip(0) =~= ev);
        for i in 0..self.entries.len()
            invariant
                ev == self.view_v(),
                k@ == key@,
                get_spec(ev, key@) == get_spec(ev.skip(i as int), key@),
        {
            assert(ev.skip(i as int).drop_first() =~= ev.skip(i + 1));
            assert(ev.skip(i as int)[0] == ev[i as int]);
            if self.entries[i].0 == k {
                return Some(self.entries[i].1.clone());
            }
        }
        assert(ev.skip(self.entries.len() as int).len() == 0);
        None
    }

    /// `has(key)`.
    pub fn has(&self, key: &str) -> (r: bool)
        ensures
            r == has_spec(self.view_v(), key@),
    {
        let k = String::from_str(key);
        for i in 0..self.entries.len()
            invariant
                k@ == key@,
                forall|j: int| 0 <= j < i ==> self.view_v()[j].0 != key@,
        {
            if self.entries[i].0 == k {
                assert(self.view_v()[i as int].0 == key@);
                return true;
            }
        }
        false
    }

    /// `delete(key)`: drops every entry named `key`.
    pub fn delete(&mut self, key: &str)
        ensures
            final(self).view_v() == without(old(self).view_v(), key@),
    {
        let ghost ev = self.view_v();
        let mut kept: Vec<(String, String)> = Vec::new();
        let k = String::from_str(key);
        assert(pairs_view(kept@) =~= without(ev.take(0), key@));
        for i in 0..self.entries.len()
            invariant
                ev == self.view_v(),
                k@ == key@,
                pairs_view(kept@) == without(ev.take(i as int), key@),
        {
            assert(ev.take(i + 1).drop_last() =~= ev.take(i as int));
            if self.entries[i].0 != k {
                let p = (self.entries[i].0.clone(), self.entries[i].1.clone());
                kept.push(p);
                assert(pairs_view(kept@) =~= without(ev.take(i as int), key@).push(ev[i as int]));
            } else {
                assert(pairs_view(kept@) =~= without(ev.take(i + 1), key@));
            }
        }
        assert(ev.take(self.entries.len() as int) =~= ev);
        self.entries = kept;
    }

    /// `set(key, value)`: drops every entry named `key`, then appends one.
    pub fn set(&mut self, key: &str, value: &str)
        ensures
            final(self).view_v() == without(old(self).view_v(), key@).push((key@, value@)),
    {
        self.delete(key);
        self.entries.push((String::from_str(key), String::from_str(value)));
        assert(self.view_v() =~= without(old(self).view_v(), key@).push((key@, value@)));
    }

    /// `append(key, value)`.
    pub fn append(&mut self, key: &str, value: &str)
        ensures
            final(self).view_v() == old(self).view_v().push((key@, value@)),
    {
        self.entries.push((String::from_str(key), String::from_str(value)));
        assert(self.view_v() =~= old(self).view_v().push((key@, value@)));
    }

    /// `toString()`.
    pub fn to_string(&self) -> (r: String)
        ensures
            r@ == serialize_spec(self.view_v()),
    {
        serialize_search_params(self.entries.as_slice())
    }
}

} // verus!

verus! {

proof fn lemma_without_lacks(entries: Seq<PairV>, key: Seq<char>)
    ensures
        !has_spec(without(entries, key), key),
    decreases entries.len(),
{
    if entries.len() > 0 {
        lemma_without_lacks(entries.drop_last(), key);
        let w = without(entries.drop_last(), key);
        if entries.last().0 != key {
            assert forall|i: int| 0 <= i < w.push(entries.last()).len() implies w.push(entries.last())[i].0 != key by {
                if i < w.len() {
                    assert(!(0 <= i < w.len() && w[i].0 == key));
                }
            }
        }
    }
}

proof fn lemma_get_push(entries: Seq<PairV>, p: PairV, key: Seq<char>)
    requires
        !has_spec(entries, key),
    ensures
        get_spec(entries.push(p), key) == if p.0 == key { Some(p.1) } else { None },
    decreases entries.len(),
{
    if entries.len() > 0 {
        assert(entries[0].0 != key);
        assert(entries.push(p).drop_first() =~= entries.drop_first().push(p));
        assert(!has_spec(entries.drop_first(), key)) by {
            if has_spec(entries.drop_first(), key) {
                let i = choose|i: int| 0 <= i < entries.drop_first().len() && entries.drop_first()[i].0 == key;
                assert(entries[i + 1].0 == key);
            }
        }
        lemma_get_push(entries.drop_first(), p, key);
    } else {
        assert(entries.push(p)[0] == p);
        assert(entries.push(p).drop_first() =~= Seq::<PairV>::empty());
        assert(get_spec(Seq::<PairV>::empty(), key) is None);
    }
}

/// After `set(key, value)`, `get(key)` gives `value`.
pub proof fn law_search_params_get_after_set(entries: Seq<PairV>, key: Seq<char>, value: Seq<char>)
    ensures
        get_spec(without(entries, key).push((key, value)), key) == Some(value),
{
    lemma_without_lacks(entries, key);
    lemma_get_push(without(entries, key), (key, value), key);
}

/// After `delete(key)`, `has(key)` is false.
pub proof fn law_search_params_has_after_delete(entries: Seq<PairV>, key: Seq<char>)
    ensures
        !has_spec(without(entries, key), key),
{
    lemma_without_lacks(entries, key);
}

/// A URL-like page object (`location` or a `URL` instance): its parts and,
/// once present, its `searchParams`.
#[derive(Debug, Clone, PartialEq, Eq)]
pub struct UrlObject {
    pub parts: LocationParts,
    pub search_params: Option<SearchParams>,
}

/// `location` for `href`.
pub fn location_object(href: &str) -> (r: UrlObject)
    ensures
        r.parts.view_v() == location_spec(normalize_url_spec(href@)),
        r.parts.wf(),
        r.search_params is None,
{
    let n = normalize_url(href);
    UrlObject { parts: parse_location(n.as_str()), search_params: None }
}

/// A `URL` instance for `href`, with its `searchParams`.
pub fn url_object(href: &str) -> (r: UrlObject)
    ensures
        r.parts.view_v() == location_spec(normalize_url_spec(href@)),
        r.parts.wf(),
        r.search_params matches Some(p) && p.view_v() == parse_search_spec(r.parts.search@),
{
    let n = normalize_url(href);
    let parts = parse_location(n.as_str());
    let search_params = SearchParams::new(parts.search.as_str());
    UrlObject { parts, search_params: Some(search_params) }
}

/// Re-points a URL-like object at `href`; its parts and `searchParams`
/// follow the new URL.
pub fn update_url_like_object(object: &mut UrlObject, href: &str)
    ensures
        final(object).parts.view_v() == location_spec(normalize_url_spec(href@)),
        final(object).parts.wf(),
        final(object).search_params matches Some(p) && p.view_v() == parse_search_spec(
            final(object).parts.search@,
        ),
{
    *object = url_object(href);
}

impl UrlObject {
    /// `assign(next)`: navigates to `next` resolved against the current href.
    pub fn assign(&mut self, next: &str)
        ensures
            final(self).parts.wf(),
            final(self).parts.view_v() == location_spec(
                normalize_url_spec(resolve_url_spec(next@, old(self).parts.href@)),
            ),
            final(self).search_params matches Some(p) && p.view_v() == parse_search_spec(
                final(self).parts.search@,
            ),
    {
        let target = resolve_url(next, self.parts.href.as_str());
        update_url_like_object(self, target.as_str());
    }

    /// `replace(next)`: as `assign`.
    pub fn replace(&mut self, next: &str)
        ensures
            final(self).parts.wf(),
            final(self).parts.view_v() == location_spec(
                normalize_url_spec(resolve_url_spec(next@, old(self).parts.href@)),
            ),
            final(self).search_params matches Some(p) && p.view_v() == parse_search_spec(
                final(self).parts.search@,
            ),
    {
        let target = resolve_url(next, self.parts.href.as_str());
        update_url_like_object(self, target.as_str());
    }

    /// Assigning to `href`.
    pub fn set_href(&mut self, href: &str)
        ensures
            final(self).parts.wf(),
            final(self).parts.view_v() == location_spec(normalize_url_spec(normalize_url_spec(href@))),
            final(self).search_params matches Some(p) && p.view_v() == parse_search_spec(
                final(self).parts.search@,
            ),
    {
        let target = normalize_url(href);
        update_url_like_object(self, target.as_str());
    }

    /// `toString()`: the href.
    pub fn to_string(&self) -> (r: String)
        ensures
            r@ == self.parts.href@,
    {
        self.parts.href.clone()
    }
}

/// The page's `navigator` object.
#[derive(Debug, Clone, PartialEq, Eq)]
pub struct Navigator {
    pub user_agent: String,
    pub language: String,
    pub languages: Vec<String>,
    pub platform: String,
    pub cookie_enabled: bool,
    pub on_line: bool,
}

/// `navigator`, reporting `platform` (the host operating system's name).
pub fn navigator_object(platform: &str) -> (r: Navigator)
    ensures
        r.user_agent@ == "TetherScript/0.1 BrowserCompat"@,
        r.language@ == "en-US"@,
        r.languages@.len() == 2,
        r.languages@[0]@ == "en-US"@,
        r.languages@[1]@ == "en"@,
        r.platform@ == platform@,
        !r.cookie_enabled,
        r.on_line,
{
    let mut languages: Vec<String> = Vec::new();
    languages.push(String::from_str("en-US"));
    languages.push(String::from_str("en"));
    Navigator {
        user_agent: String::from_str("TetherScript/0.1 BrowserCompat"),
        language: String::from_str("en-US"),
        languages,
        platform: String::from_str(platform),
        cookie_enabled: false,
        on_line: true,
    }
}


/// A relative reference (no scheme, not starting with `/`, `?` or `#`) is
/// resolved against the base's directory: the result is the base's origin,
/// then the base's path up to and including its last `/`, then the
/// reference.
pub proof fn law_relative_reference_keeps_directory(input: Seq<char>, base: Seq<char>)
    requires
        contains(base, "://"@),
        !contains(input, "://"@),
        !starts_with(input, "//"@),
        input.len() > 0 ==> input[0] != '/' && input[0] != '?' && input[0] != '#',
    ensures
        exists|k: int|
            #[trigger] is_last(location_spec(base).pathname, '/', k) && resolve_url_spec(input, base)
                == location_spec(base).origin + location_spec(base).pathname.take(k + 1) + input,
{
    let p = location_spec(base).pathname;
    assert(p.len() > 0 && p[0] == '/');
    assert(has_char(p, '/'));
    crate::text::lemma_last_pos(p, '/');
    let k = last_pos(p, '/');
    assert(rsplit_once(p, '/') == Some((p.take(k), p.skip(k + 1))));
    assert(p.take(k).push('/') =~= p.take(k + 1));
    assert(normalize_url_spec(base) == base);
    assert(is_last(p, '/', k));
}

} // verus!

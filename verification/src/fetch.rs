//! The page's `fetch`, `Headers` and `Response` stand-ins: header lists with
//! lower-cased names where repeated names are merged with `, `, response
//! records, and the canned reply that `fetch` gives without any network.

use vstd::prelude::*;

use crate::text::{
    chars_of, concat, lower, str_trim, substring, to_ascii_lowercase, to_ascii_uppercase, trim,
    upper,
};
use crate::url::{pairs_view, PairV};

verus! {

/// The value stored for `name` in a header list, with a later value for an
/// existing name appended after `, ` (or replacing an empty one).
pub open spec fn merged(existing: Seq<char>, value: Seq<char>) -> Seq<char> {
    if existing.len() == 0 {
        value
    } else {
        existing + ", "@ + value
    }
}

/// Position of the first entry named `name`.
pub open spec fn first_named(entries: Seq<PairV>, name: Seq<char>, i: int) -> bool {
    0 <= i < entries.len() && entries[i].0 == name && forall|j: int| 0 <= j < i ==> entries[j].0 != name
}

pub open spec fn has_name(entries: Seq<PairV>, name: Seq<char>) -> bool {
    exists|i: int| 0 <= i < entries.len() && entries[i].0 == name
}

/// `Headers.append`: merge into the first entry named `name`, or add one.
pub open spec fn append_spec(entries: Seq<PairV>, name: Seq<char>, value: Seq<char>) -> Seq<PairV> {
    if has_name(entries, name) {
        let i = choose|i: int| first_named(entries, name, i);
        entries.update(i, (name, merged(entries[i].1, value)))
    } else {
        entries.push((name, value))
    }
}

/// Entries not named `name`, in order.
pub open spec fn drop_named(entries: Seq<PairV>, name: Seq<char>) -> Seq<PairV>
    decreases entries.len(),
{
    if entries.len() == 0 {
        Seq::empty()
    } else if entries.last().0 != name {
        drop_named(entries.drop_last(), name).push(entries.last())
    } else {
        drop_named(entries.drop_last(), name)
    }
}

/// `Headers.set`: drop entries named `name`, then add one.
pub open spec fn set_spec(entries: Seq<PairV>, name: Seq<char>, value: Seq<char>) -> Seq<PairV> {
    drop_named(entries, name).push((name, value))
}

/// Appending each entry in turn, names lower-cased.
pub open spec fn normalize_spec(entries: Seq<PairV>) -> Seq<PairV>
    decreases entries.len(),
{
    if entries.len() == 0 {
        Seq::empty()
    } else {
        append_spec(normalize_spec(entries.drop_last()), lower(entries.last().0), entries.last().1)
    }
}

/// Value of the first entry named `name`.
pub open spec fn header_get_spec(entries: Seq<PairV>, name: Seq<char>) -> Option<Seq<char>> {
    if has_name(entries, name) {
        let i = choose|i: int| first_named(entries, name, i);
        Some(entries[i].1)
    } else {
        None
    }
}

proof fn lemma_first_named_unique(entries: Seq<PairV>, name: Seq<char>, i: int)
    requires
        first_named(entries, name, i),
    ensures
        has_name(entries, name),
        (choose|k: int| first_named(entries, name, k)) == i,
{
    assert(first_named(entries, name, i));
    let k = choose|k: int| first_named(entries, name, k);
    assert(first_named(entries, name, k));
    if k < i {
        assert(entries[k].0 != name);
    }
    if k > i {
        assert(entries[i].0 != name);
    }
}

fn find_named(entries: &Vec<(String, String)>, name: &String) -> (r: Option<usize>)
    ensures
        r matches Some(i) ==> first_named(pairs_view(entries@), name@, i as int),
        r is None ==> !has_name(pairs_view(entries@), name@),
{
    for i in 0..entries.len()
        invariant
            forall|j: int| 0 <= j < i ==> pairs_view(entries@)[j].0 != name@,
    {
        if entries[i].0 == *name {
            return Some(i);
        }
    }
    None
}

/// `Headers.append` on an entry list.
pub fn append_header(entries: &mut Vec<(String, String)>, name: String, value: String)
    ensures
        pairs_view(final(entries)@) == append_spec(pairs_view(old(entries)@), name@, value@),
{
    match find_named(entries, &name) {
        Some(i) => {
            proof {
                lemma_first_named_unique(pairs_view(entries@), name@, i as int);
            }
            let existing = entries[i].1.clone();
            let mut joined = existing.clone();
            if joined.unicode_len() != 0 {
                joined.append(", ");
            }
            joined.append(value.as_str());
            assert(joined@ == merged(existing@, value@));
            let ghost before = pairs_view(entries@);
            entries.set(i, (name, joined));
            assert(pairs_view(entries@) =~= before.update(i as int, (name@, merged(before[i as int].1, value@))));
        },
        None => {
            entries.push((name, value));
            assert(pairs_view(entries@) =~= pairs_view(old(entries)@).push((name@, value@)));
        },
    }
}

/// `Headers.set` on an entry list.
pub fn set_header(entries: &mut Vec<(String, String)>, name: String, value: String)
    ensures
        pairs_view(final(entries)@) == set_spec(pairs_view(old(entries)@), name@, value@),
{
    let ghost ev = pairs_view(entries@);
    let mut kept: Vec<(String, String)> = Vec::new();
    assert(pairs_view(kept@) =~= drop_named(ev.take(0), name@));
    for i in 0..entries.len()
        invariant
            ev == pairs_view(entries@),
            pairs_view(kept@) == drop_named(ev.take(i as int), name@),
    {
        assert(ev.take(i + 1).drop_last() =~= ev.take(i as int));
        if entries[i].0 != name {
            kept.push((entries[i].0.clone(), entries[i].1.clone()));
            assert(pairs_view(kept@) =~= drop_named(ev.take(i as int), name@).push(ev[i as int]));
        } else {
            assert(pairs_view(kept@) =~= drop_named(ev.take(i + 1), name@));
        }
    }
    assert(ev.take(entries.len() as int) =~= ev);
    kept.push((name, value));
    assert(pairs_view(kept@) =~= set_spec(ev, name@, value@));
    *entries = kept;
}

/// Header entries with lower-cased names, repeated names merged.
pub fn normalize_header_entries(entries: Vec<(String, String)>) -> (r: Vec<(String, String)>)
    ensures
        pairs_view(r@) == normalize_spec(pairs_view(entries@)),
{
    let ghost ev = pairs_view(entries@);
    let mut out: Vec<(String, String)> = Vec::new();
    assert(pairs_view(out@) =~= normalize_spec(ev.take(0)));
    for i in 0..entries.len()
        invariant
            ev == pairs_view(entries@),
            pairs_view(out@) == normalize_spec(ev.take(i as int)),
    {
        assert(ev.take(i + 1).drop_last() =~= ev.take(i as int));
        let k = to_ascii_lowercase(entries[i].0.as_str());
        append_header(&mut out, k, entries[i].1.clone());
    }
    assert(ev.take(entries.len() as int) =~= ev);
    out
}

/// A `Headers` object: entries with lower-cased names.
#[derive(Debug, Clone, PartialEq, Eq)]
pub struct Headers {
    pub entries: Vec<(String, String)>,
}

impl Headers {
    pub open spec fn view_v(&self) -> Seq<PairV> {
        pairs_view(self.entries@)
    }

    /// `get(name)`: value under the lower-cased name, or `None` for `null`.
    pub fn get(&self, name: &str) -> (r: Option<String>)
        ensures
            r matches Some(v) ==> header_get_spec(self.view_v(), lower(name@)) == Some(v@),
            r is None ==> header_get_spec(self.view_v(), lower(name@)) is None,
    {
        let key = to_ascii_lowercase(name);
        match find_named(&self.entries, &key) {
            Some(i) => {
                proof {
                    lemma_first_named_unique(self.view_v(), key@, i as int);
                }
                Some(self.entries[i].1.clone())
            },
            None => None,
        }
    }

    /// `has(name)`.
    pub fn has(&self, name: &str) -> (r: bool)
        ensures
            r == has_name(self.view_v(), lower(name@)),
    {
        let key = to_ascii_lowercase(name);
        find_named(&self.entries, &key).is_some()
    }

    /// `set(name, value)`.
    pub fn set(&mut self, name: &str, value: &str)
        ensures
            final(self).view_v() == set_spec(old(self).view_v(), lower(name@), value@),
    {
        let key = to_ascii_lowercase(name);
        set_header(&mut self.entries, key, String::from_str(value));
    }

    /// `append(name, value)`.
    pub fn append(&mut self, name: &str, value: &str)
        ensures
            final(self).view_v() == append_spec(old(self).view_v(), lower(name@), value@),
    {
        let key = to_ascii_lowercase(name);
        append_header(&mut self.entries, key, String::from_str(value));
    }
}

/// A `Headers` object holding the given entries, normalized.
pub fn headers_from_entries(entries: Vec<(String, String)>) -> (r: Headers)
    ensures
        r.view_v() == normalize_spec(pairs_view(entries@)),
{
    Headers { entries: normalize_header_entries(entries) }
}

/// `Headers(init)`: the data properties of the init object, as entries.
pub fn headers_object(init: Option<Vec<(String, String)>>) -> (r: Headers)
    ensures
        init matches Some(e) ==> r.view_v() == normalize_spec(pairs_view(e@)),
        init is None ==> r.view_v().len() == 0,
{
    match init {
        Some(e) => headers_from_entries(e),
        None => {
            let r = Headers { entries: Vec::new() };
            assert(r.view_v() =~= Seq::<PairV>::empty());
            r
        },
    }
}

/// Reason phrase for the common status codes, else empty.
pub open spec fn status_text_spec(status: u16) -> Seq<char> {
    if status == 200 {
        "OK"@
    } else if status == 201 {
        "Created"@
    } else if status == 204 {
        "No Content"@
    } else if status == 400 {
        "Bad Request"@
    } else if status == 404 {
        "Not Found"@
    } else if status == 500 {
        "Internal Server Error"@
    } else {
        Seq::empty()
    }
}

pub fn default_status_text(status: u16) -> (r: String)
    ensures
        r@ == status_text_spec(status),
{
    match status {
        200 => String::from_str("OK"),
        201 => String::from_str("Created"),
        204 => String::from_str("No Content"),
        400 => String::from_str("Bad Request"),
        404 => String::from_str("Not Found"),
        500 => String::from_str("Internal Server Error"),
        _ => String::new(),
    }
}

pub open spec fn is_digit(c: char) -> bool {
    '0' <= c && c <= '9'
}

pub open spec fn all_digits(s: Seq<char>) -> bool {
    forall|i: int| 0 <= i < s.len() ==> is_digit(#[trigger] s[i])
}

/// Digits, at most one `.`, and at least one digit.
pub open spec fn mantissa_syntax(s: Seq<char>) -> bool {
    ||| (all_digits(s) && s.len() > 0)
    ||| exists|d: int|
        0 <= d < s.len() && s[d] == '.' && all_digits(s.take(d)) && all_digits(s.skip(d + 1))
            && s.len() > 1
}

/// An optional sign and at least one digit.
pub open spec fn exponent_syntax(s: Seq<char>) -> bool {
    ||| (all_digits(s) && s.len() > 0)
    ||| (s.len() > 1 && (s[0] == '+' || s[0] == '-') && all_digits(s.skip(1)))
}

/// The text of a decimal number without sign: mantissa, then optionally
/// `e`/`E` and an exponent.
pub open spec fn number_syntax(s: Seq<char>) -> bool {
    ||| (mantissa_syntax(s) && forall|i: int| 0 <= i < s.len() ==> s[i] != 'e' && s[i] != 'E')
    ||| exists|e: int|
        0 <= e < s.len() && (s[e] == 'e' || s[e] == 'E') && mantissa_syntax(s.take(e))
            && exponent_syntax(s.skip(e + 1))
}

/// The grammar that the standard library documents for parsing a
/// floating-point number: an optional sign, then `inf`, `infinity`, `nan`
/// (any case) or a decimal number.
pub open spec fn float_syntax(s: Seq<char>) -> bool {
    let body = if s.len() > 0 && (s[0] == '+' || s[0] == '-') {
        s.skip(1)
    } else {
        s
    };
    ||| lower(body) == "inf"@
    ||| lower(body) == "infinity"@
    ||| lower(body) == "nan"@
    ||| number_syntax(body)
}

fn digits_in(cs: &[char], a: usize, b: usize) -> (r: bool)
    requires
        a <= b <= cs@.len(),
    ensures
        r == all_digits(cs@.subrange(a as int, b as int)),
{
    let mut i = a;
    while i < b
        invariant
            a <= i <= b <= cs@.len(),
            all_digits(cs@.subrange(a as int, i as int)),
        decreases b - i,
    {
        if !('0' <= cs[i] && cs[i] <= '9') {
            assert(cs@.subrange(a as int, b as int)[i - a] == cs@[i as int]);
            return false;
        }
        assert forall|k: int| 0 <= k < i + 1 - a implies is_digit(#[trigger] cs@.subrange(a as int, i + 1)[k]) by {
            if k < i - a {
                assert(cs@.subrange(a as int, i + 1)[k] == cs@.subrange(a as int, i as int)[k]);
            }
        }
        i = i + 1;
    }
    true
}

fn mantissa_ok(cs: &[char], a: usize, b: usize) -> (r: bool)
    requires
        a <= b <= cs@.len(),
    ensures
        r == mantissa_syntax(cs@.subrange(a as int, b as int)),
{
    let ghost s = cs@.subrange(a as int, b as int);
    let mut i = a;
    while i < b && cs[i] != '.'
        invariant
            a <= i <= b <= cs@.len(),
            s == cs@.subrange(a as int, b as int),
            forall|k: int| a <= k < i ==> cs@[k] != '.',
        decreases b - i,
    {
        i = i + 1;
    }
    let dot = i;
    if dot == b {
        assert forall|d: int| 0 <= d < s.len() implies s[d] != '.' by {
            assert(s[d] == cs@[a + d]);
        }
        return b > a && digits_in(cs, a, b);
    }
    assert(s[dot - a] == '.');
    assert(s.take(dot - a) =~= cs@.subrange(a as int, dot as int));
    assert(s.skip(dot - a + 1) =~= cs@.subrange(dot + 1, b as int));
    let r = b - a > 1 && digits_in(cs, a, dot) && digits_in(cs, dot + 1, b);
    assert(r == mantissa_syntax(s)) by {
        if !r && mantissa_syntax(s) {
            if all_digits(s) && s.len() > 0 {
                assert(is_digit(s[dot - a]));
            } else {
                let d = choose|d: int|
                    0 <= d < s.len() && s[d] == '.' && all_digits(s.take(d)) && all_digits(s.skip(d + 1))
                        && s.len() > 1;
                if d < dot - a {
                    assert(cs@[a + d] == s[d]);
                } else if d > dot - a {
                    assert(s.take(d)[dot - a] == s[dot - a]);
                } else {
                }
            }
        }
    }
    r
}

fn exponent_ok(cs: &[char], a: usize, b: usize) -> (r: bool)
    requires
        a <= b <= cs@.len(),
    ensures
        r == exponent_syntax(cs@.subrange(a as int, b as int)),
{
    let ghost s = cs@.subrange(a as int, b as int);
    if b > a && digits_in(cs, a, b) {
        return true;
    }
    if b - a > 1 && (cs[a] == '+' || cs[a] == '-') {
        assert(s.skip(1) =~= cs@.subrange(a + 1, b as int));
        let r = digits_in(cs, a + 1, b);
        return r;
    }
    assert(!exponent_syntax(s)) by {
        if s.len() > 1 && (s[0] == '+' || s[0] == '-') {
            assert(s[0] == cs@[a as int]);
        }
    }
    false
}

fn number_ok(cs: &[char], a: usize, b: usize) -> (r: bool)
    requires
        a <= b <= cs@.len(),
    ensures
        r == number_syntax(cs@.subrange(a as int, b as int)),
{
    let ghost s = cs@.subrange(a as int, b as int);
    let mut i = a;
    while i < b && cs[i] != 'e' && cs[i] != 'E'
        invariant
            a <= i <= b <= cs@.len(),
            forall|k: int| a <= k < i ==> cs@[k] != 'e' && cs@[k] != 'E',
        decreases b - i,
    {
        i = i + 1;
    }
    if i == b {
        let r = mantissa_ok(cs, a, b);
        assert(r == number_syntax(s)) by {
            assert forall|k: int| 0 <= k < s.len() implies s[k] != 'e' && s[k] != 'E' by {
                assert(s[k] == cs@[a + k]);
            }
            if number_syntax(s) && !(mantissa_syntax(s) && forall|k: int| 0 <= k < s.len() ==> s[k] != 'e' && s[k] != 'E') {
                let e = choose|e: int| 0 <= e < s.len() && (s[e] == 'e' || s[e] == 'E') && mantissa_syntax(s.take(e)) && exponent_syntax(s.skip(e + 1));
                assert(s[e] == cs@[a + e]);
            }
        }
        return r;
    }
    assert(s.take(i - a) =~= cs@.subrange(a as int, i as int));
    assert(s.skip(i - a + 1) =~= cs@.subrange(i + 1, b as int));
    assert(s[i - a] == cs@[i as int]);
    let r = mantissa_ok(cs, a, i) && exponent_ok(cs, i + 1, b);
    assert(r == number_syntax(s)) by {
        if number_syntax(s) && !r {
            if mantissa_syntax(s) && forall|k: int| 0 <= k < s.len() ==> s[k] != 'e' && s[k] != 'E' {
                assert(s[i - a] == 'e' || s[i - a] == 'E');
            } else {
                let e = choose|e: int| 0 <= e < s.len() && (s[e] == 'e' || s[e] == 'E') && mantissa_syntax(s.take(e)) && exponent_syntax(s.skip(e + 1));
                if e < i - a {
                    assert(s[e] == cs@[a + e]);
                } else if e > i - a {
                    assert(s.take(e)[i - a] == s[i - a]);
                    let m = s.take(e);
                    if all_digits(m) && m.len() > 0 {
                        assert(is_digit(m[i - a]));
                    } else {
                        let d = choose|d: int| 0 <= d < m.len() && m[d] == '.' && all_digits(m.take(d)) && all_digits(m.skip(d + 1)) && m.len() > 1;
                        if d < i - a {
                            assert(m.skip(d + 1)[i - a - d - 1] == m[i - a]);
                        } else if d > i - a {
                            assert(m.take(d)[i - a] == m[i - a]);
                        }
                    }
                }
            }
        }
    }
    r
}

/// Whether `s` is text that the standard library's floating-point parser
/// accepts (its documented grammar).
pub fn is_float_text(s: &str) -> (r: bool)
    ensures
        r == float_syntax(s@),
{
    let cs = chars_of(s);
    let a: usize = if cs.len() > 0 && (cs[0] == '+' || cs[0] == '-') { 1 } else { 0 };
    let ghost body = if s@.len() > 0 && (s@[0] == '+' || s@[0] == '-') { s@.skip(1) } else { s@ };
    assert(cs@.subrange(a as int, cs@.len() as int) =~= body);
    let rest = substring(&cs, a, cs.len());
    let low = to_ascii_lowercase(rest.as_str());
    if low == String::from_str("inf") || low == String::from_str("infinity") || low == String::from_str("nan") {
        return true;
    }
    number_ok(&cs, a, cs.len())
}

/// What `Response.json()` gives for a body.
#[derive(Debug, Clone, PartialEq, Eq)]
pub enum JsonStub {
    Null,
    Bool(bool),
    /// A number, as its trimmed text.
    Number(String),
    Str(String),
}

/// `s` without leading and trailing `c`, as `str::trim_matches`.
pub open spec fn strip_char(s: Seq<char>, c: char) -> Seq<char>
    decreases s.len(),
{
    if s.len() > 0 && s[0] == c {
        strip_char(s.drop_first(), c)
    } else if s.len() > 0 && s.last() == c {
        strip_char(s.drop_last(), c)
    } else {
        s
    }
}

fn trim_matches(cs: &[char], c: char) -> (r: String)
    ensures
        r@ == strip_char(cs@, c),
{
    let mut a: usize = 0;
    let mut b: usize = cs.len();
    assert(cs@.subrange(0, cs@.len() as int) =~= cs@);
    while a < b && (cs[a] == c || cs[b - 1] == c)
        invariant
            a <= b <= cs@.len(),
            strip_char(cs@.subrange(a as int, b as int), c) == strip_char(cs@, c),
        decreases b - a,
    {
        let ghost s = cs@.subrange(a as int, b as int);
        assert(s[0] == cs@[a as int]);
        assert(s.last() == cs@[b - 1]);
        if cs[a] == c {
            assert(s.drop_first() =~= cs@.subrange(a + 1, b as int));
            a = a + 1;
        } else {
            assert(s.drop_last() =~= cs@.subrange(a as int, b - 1));
            b = b - 1;
        }
    }
    proof {
        let s = cs@.subrange(a as int, b as int);
        if s.len() > 0 {
            assert(s[0] == cs@[a as int]);
            assert(s.last() == cs@[b - 1]);
        }
    }
    substring(cs, a, b)
}

/// `Response.json()`: `null`, `true`, `false`, a number, or the trimmed
/// body without surrounding quotes.
pub fn json_stub_value(body: &str) -> (r: JsonStub)
    ensures
        trim(body@) == "null"@ ==> r == JsonStub::Null,
        trim(body@) == "true"@ ==> r == JsonStub::Bool(true),
        trim(body@) == "false"@ ==> r == JsonStub::Bool(false),
        trim(body@) != "null"@ && trim(body@) != "true"@ && trim(body@) != "false"@ ==> (
        if float_syntax(trim(body@)) {
            r matches JsonStub::Number(n) && n@ == trim(body@)
        } else {
            r matches JsonStub::Str(s) && s@ == strip_char(trim(body@), '"')
        }),
{
    proof {
        reveal_strlit("null");
        reveal_strlit("true");
        reveal_strlit("false");
        assert("true"@[0] != "null"@[0]);
        assert("false"@.len() != "null"@.len());
        assert("false"@.len() != "true"@.len());
    }
    let t = str_trim(body);
    if t == String::from_str("null") {
        JsonStub::Null
    } else if t == String::from_str("true") {
        JsonStub::Bool(true)
    } else if t == String::from_str("false") {
        JsonStub::Bool(false)
    } else if is_float_text(t.as_str()) {
        JsonStub::Number(t)
    } else {
        let tc = chars_of(t.as_str());
        JsonStub::Str(trim_matches(&tc, '"'))
    }
}

/// A `Response` object.
#[derive(Debug, Clone, PartialEq, Eq)]
pub struct Response {
    pub body: String,
    pub status: u16,
    pub status_text: String,
    pub ok: bool,
    pub url: String,
    pub headers: Headers,
}

/// A response record; `ok` exactly for statuses 200 to 299.
pub fn response_object(body: String, status: u16, status_text: String, headers: Headers, url: String) -> (r: Response)
    ensures
        r.body@ == body@,
        r.status == status,
        r.status_text@ == status_text@,
        r.ok == (200 <= status <= 299),
        r.url@ == url@,
        r.headers == headers,
{
    Response { body, status, status_text, ok: 200 <= status && status <= 299, url, headers }
}

impl Response {
    /// `text()`: the body.
    pub fn text(&self) -> (r: String)
        ensures
            r@ == self.body@,
    {
        self.body.clone()
    }

    /// `json()`.
    pub fn json(&self) -> (r: JsonStub)
        ensures
            trim(self.body@) == "null"@ ==> r == JsonStub::Null,
            trim(self.body@) == "true"@ ==> r == JsonStub::Bool(true),
            trim(self.body@) == "false"@ ==> r == JsonStub::Bool(false),
            trim(self.body@) != "null"@ && trim(self.body@) != "true"@ && trim(self.body@) != "false"@ ==> (
            if float_syntax(trim(self.body@)) {
                r matches JsonStub::Number(n) && n@ == trim(self.body@)
            } else {
                r matches JsonStub::Str(s) && s@ == strip_char(trim(self.body@), '"')
            }),
    {
        json_stub_value(self.body.as_str())
    }
}

/// The init object of `Response(body, init)`.
#[derive(Debug, Clone, PartialEq, Eq)]
pub struct ResponseInit {
    pub status: Option<u16>,
    pub status_text: Option<String>,
    pub headers: Option<Headers>,
}

/// `Response(body, init)`: status 200 unless given, the status's reason
/// phrase unless given, no headers unless given, empty url.
pub fn construct_response(body: &str, init: Option<ResponseInit>) -> (r: Response)
    ensures
        r.body@ == body@,
        r.url@.len() == 0,
        init is None ==> r.status == 200 && r.status_text@ == "OK"@ && r.headers.view_v().len() == 0,
        init matches Some(i) ==> {
            &&& r.status == (match i.status { Some(s) => s, None => 200 })
            &&& r.status_text@ == (match i.status_text { Some(t) => t@, None => status_text_spec(r.status) })
            &&& r.headers == (match i.headers { Some(h) => h, None => r.headers }) && (i.headers is None ==> r.headers.view_v().len() == 0)
        },
        r.ok == (200 <= r.status <= 299),
{
    let (status, status_text, headers) = match init {
        Some(i) => {
            let status = match i.status {
                Some(s) => s,
                None => 200,
            };
            let status_text = match i.status_text {
                Some(t) => t,
                None => default_status_text(status),
            };
            let headers = match i.headers {
                Some(h) => h,
                None => headers_object(None),
            };
            (status, status_text, headers)
        },
        None => (200u16, default_status_text(200), headers_object(None)),
    };
    response_object(String::from_str(body), status, status_text, headers, String::new())
}

/// The init object of `fetch(url, init)`.
#[derive(Debug, Clone, PartialEq, Eq)]
pub struct FetchInit {
    pub method: Option<String>,
    pub body: Option<String>,
    pub status: Option<u16>,
    pub headers: Option<Vec<(String, String)>>,
}

/// Body of the canned reply: `fetch stub: <url>`, with the upper-cased
/// method before the url when one is given, or the given body.
pub open spec fn fetch_body_spec(url: Seq<char>, init: Option<FetchInit>) -> Seq<char> {
    match init {
        Some(i) => match i.body {
            Some(b) => b@,
            None => match i.method {
                Some(m) => "fetch stub: "@ + upper(m@) + " "@ + url,
                None => "fetch stub: "@ + url,
            },
        },
        None => "fetch stub: "@ + url,
    }
}

/// `fetch(url, init)` without a network: a `Response` with the canned body,
/// status 200 unless given, `content-type: text/plain;charset=utf-8` followed
/// by the given headers, and `url`.
pub fn fetch_stub(url: &str, init: Option<FetchInit>) -> (r: Response)
    ensures
        r.body@ == fetch_body_spec(url@, init),
        r.status == (match init { Some(i) => match i.status { Some(s) => s, None => 200 }, None => 200 }),
        r.status_text@ == status_text_spec(r.status),
        r.ok == (200 <= r.status <= 299),
        r.url@ == url@,
        r.headers.view_v() == normalize_spec(
            seq![("content-type"@, "text/plain;charset=utf-8"@)] + match init {
                Some(i) => match i.headers { Some(h) => pairs_view(h@), None => Seq::empty() },
                None => Seq::empty(),
            },
        ),
{
    let mut body = concat("fetch stub: ", url);
    let mut status: u16 = 200;
    let mut headers: Vec<(String, String)> = Vec::new();
    headers.push((String::from_str("content-type"), String::from_str("text/plain;charset=utf-8")));
    let ghost extra: Seq<PairV> = Seq::empty();
    match init {
        Some(i) => {
            match i.method {
                Some(m) => {
                    let up = to_ascii_uppercase(m.as_str());
                    let mut b = String::from_str("fetch stub: ");
                    b.append(up.as_str());
                    b.append(" ");
                    b.append(url);
                    body = b;
                },
                None => {},
            }
            match i.body {
                Some(b) => {
                    body = b;
                },
                None => {},
            }
            match i.status {
                Some(s) => {
                    status = s;
                },
                None => {},
            }
            match i.headers {
                Some(h) => {
                    proof {
                        extra = pairs_view(h@);
                    }
                    let ghost before = pairs_view(headers@);
                    for k in 0..h.len()
                        invariant
                            pairs_view(headers@) == before + pairs_view(h@).take(k as int),
                    {
                        let ghost prev = headers@;
                        headers.push((h[k].0.clone(), h[k].1.clone()));
                        assert(pairs_view(headers@) =~= pairs_view(prev).push(pairs_view(h@)[k as int]));
                        assert(pairs_view(headers@) =~= before + pairs_view(h@).take(k + 1));
                    }
                    assert(pairs_view(h@).take(h.len() as int) =~= pairs_view(h@));
                },
                None => {},
            }
        },
        None => {},
    }
    assert(pairs_view(headers@) =~= seq![("content-type"@, "text/plain;charset=utf-8"@)] + match init {
        Some(i) => match i.headers { Some(h) => pairs_view(h@), None => Seq::empty() },
        None => Seq::empty(),
    });
    let text = default_status_text(status);
    response_object(body, status, text, headers_from_entries(headers), String::from_str(url))
}


proof fn lemma_drop_named_lacks(entries: Seq<PairV>, name: Seq<char>)
    ensures
        !has_name(drop_named(entries, name), name),
    decreases entries.len(),
{
    if entries.len() > 0 {
        lemma_drop_named_lacks(entries.drop_last(), name);
        let d = drop_named(entries.drop_last(), name);
        if entries.last().0 != name {
            assert forall|i: int| 0 <= i < d.push(entries.last()).len() implies d.push(entries.last())[i].0 != name by {
                if i < d.len() {
                    assert(d.push(entries.last())[i] == d[i]);
                }
            }
        }
    }
}

/// After `set(name, value)`, `get(name)` gives `value`, whatever was there.
pub proof fn law_headers_get_after_set(entries: Seq<PairV>, name: Seq<char>, value: Seq<char>)
    ensures
        header_get_spec(set_spec(entries, name, value), name) == Some(value),
{
    lemma_drop_named_lacks(entries, name);
    let d = drop_named(entries, name);
    let s = set_spec(entries, name, value);
    assert(first_named(s, name, d.len() as int)) by {
        assert forall|j: int| 0 <= j < d.len() implies s[j].0 != name by {
            assert(s[j] == d[j]);
        }
    }
    lemma_first_named_unique(s, name, d.len() as int);
}

/// After `append(name, value)`, `get(name)` gives the earlier value with
/// `, value` after it, or `value` where there was none (or it was empty).
pub proof fn law_headers_get_after_append(entries: Seq<PairV>, name: Seq<char>, value: Seq<char>)
    ensures
        header_get_spec(append_spec(entries, name, value), name) == Some(match header_get_spec(entries, name) {
            Some(old) => merged(old, value),
            None => value,
        }),
{
    let a = append_spec(entries, name, value);
    if has_name(entries, name) {
        let i = choose|i: int| first_named(entries, name, i);
        let k = choose|k: int| 0 <= k < entries.len() && entries[k].0 == name;
        lemma_first_named_exists(entries, name, k);
        let i = choose|i: int| first_named(entries, name, i);
        assert(first_named(a, name, i)) by {
            assert forall|j: int| 0 <= j < i implies a[j].0 != name by {
                assert(a[j] == entries[j]);
            }
        }
        lemma_first_named_unique(a, name, i);
    } else {
        assert(first_named(a, name, entries.len() as int)) by {
            assert forall|j: int| 0 <= j < entries.len() implies a[j].0 != name by {
                assert(a[j] == entries[j]);
            }
        }
        lemma_first_named_unique(a, name, entries.len() as int);
    }
}

proof fn lemma_first_named_exists(entries: Seq<PairV>, name: Seq<char>, k: int)
    requires
        0 <= k < entries.len(),
        entries[k].0 == name,
    ensures
        exists|i: int| first_named(entries, name, i),
    decreases k,
{
    if exists|j: int| 0 <= j < k && entries[j].0 == name {
        let j = choose|j: int| 0 <= j < k && entries[j].0 == name;
        lemma_first_named_exists(entries, name, j);
    } else {
        assert(first_named(entries, name, k));
    }
}


/// The canned body names the request: with a method `m` and no body it is
/// `fetch stub: ` then `m` in upper case, a space and the url; with neither
/// it is `fetch stub: ` then the url; a given body is returned as it is.
pub proof fn law_fetch_stub_body(url: Seq<char>, i: FetchInit)
    ensures
        i.body is None && i.method is Some ==> fetch_body_spec(url, Some(i))
            == "fetch stub: "@ + upper(i.method->Some_0@) + seq![' '] + url,
        i.body is None && i.method is None ==> fetch_body_spec(url, Some(i)) == "fetch stub: "@ + url,
        i.body is Some ==> fetch_body_spec(url, Some(i)) == i.body->Some_0@,
        fetch_body_spec(url, None) == "fetch stub: "@ + url,
{
    reveal_strlit(" ");
    assert(" "@ =~= seq![' ']);
}


/// Two body-less requests to one url get the same canned body exactly when
/// their methods agree up to ASCII case.
pub proof fn law_fetch_stub_method_matters(url: Seq<char>, a: FetchInit, b: FetchInit)
    requires
        a.body is None && a.method is Some,
        b.body is None && b.method is Some,
    ensures
        (fetch_body_spec(url, Some(a)) == fetch_body_spec(url, Some(b)))
            <==> upper(a.method->Some_0@) == upper(b.method->Some_0@),
{
    law_fetch_stub_body(url, a);
    law_fetch_stub_body(url, b);
    let p = "fetch stub: "@;
    let x = upper(a.method->Some_0@);
    let y = upper(b.method->Some_0@);
    let s1 = p + x + seq![' '] + url;
    let s2 = p + y + seq![' '] + url;
    if s1 == s2 {
        assert(s1.len() == p.len() + x.len() + 1 + url.len());
        assert(s2.len() == p.len() + y.len() + 1 + url.len());
        assert(x.len() == y.len());
        assert forall|k: int| 0 <= k < x.len() implies x[k] == y[k] by {
            assert(s1[p.len() + k] == x[k]);
            assert(s2[p.len() + k] == y[k]);
        }
        assert(x =~= y);
    }
}

} // verus!

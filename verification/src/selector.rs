//! CSS selector parsing for DOM queries.
//!
//! A selector list is a comma-separated list of complex selectors. A complex
//! selector is a sequence of compound selectors joined by whitespace
//! (descendant) or `>` (child). A compound selector is an optional tag name
//! (or `*`) followed by `#id`, `.class`, `[name]` and `[name=value]` tests;
//! a value may be wrapped in single or double quotes. Attribute values hold
//! no whitespace, `>` or `,`.

use vstd::prelude::*;

use crate::dom_tree::{split_ws, words};
use crate::text::{
    chars_of, find_char, first_pos, has_char, is_whitespace, lemma_first_pos, lemma_first_unique,
    replace_char, split_all, split_chars, split_once, split_once_chars, string_from, substring,
};

verus! {

/// One test of a compound selector.
#[derive(Debug)]
pub enum Simple {
    Tag(String),
    Id(String),
    Class(String),
    Has(String),
    Equals(String, String),
}

/// Mathematical value of a [`Simple`] test.
pub enum SimpleV {
    Tag(Seq<char>),
    Id(Seq<char>),
    Class(Seq<char>),
    Has(Seq<char>),
    Equals(Seq<char>, Seq<char>),
}

pub open spec fn simple_view(s: Simple) -> SimpleV {
    match s {
        Simple::Tag(t) => SimpleV::Tag(t@),
        Simple::Id(t) => SimpleV::Id(t@),
        Simple::Class(t) => SimpleV::Class(t@),
        Simple::Has(t) => SimpleV::Has(t@),
        Simple::Equals(n, v) => SimpleV::Equals(n@, v@),
    }
}

pub open spec fn compound_view(c: Seq<Simple>) -> Seq<SimpleV> {
    c.map(|i: int, s: Simple| simple_view(s))
}

/// A complex selector: compounds, and between consecutive compounds whether
/// the later one must be a child (`true`) or any descendant (`false`).
#[derive(Debug)]
pub struct Complex {
    pub parts: Vec<Vec<Simple>>,
    pub child: Vec<bool>,
}

pub struct ComplexV {
    pub parts: Seq<Seq<SimpleV>>,
    pub child: Seq<bool>,
}

pub open spec fn complex_view(c: Complex) -> ComplexV {
    ComplexV {
        parts: c.parts@.map(|i: int, p: Vec<Simple>| compound_view(p@)),
        child: c.child@,
    }
}

pub open spec fn complexes_view(s: Seq<Complex>) -> Seq<ComplexV> {
    s.map(|i: int, c: Complex| complex_view(c))
}

pub open spec fn is_mark(c: char) -> bool {
    c == '#' || c == '.' || c == '['
}

/// Where the name at the start of `t` ends: at the first `#`, `.` or `[`.
pub open spec fn mark_end(t: Seq<char>) -> nat
    decreases t.len(),
{
    if t.len() == 0 || is_mark(t[0]) {
        0
    } else {
        1 + mark_end(t.drop_first())
    }
}

/// `v` without one pair of matching surrounding quotes.
pub open spec fn unquote(v: Seq<char>) -> Seq<char> {
    if v.len() >= 2 && (v[0] == '"' || v[0] == '\'') && v.last() == v[0] {
        v.subrange(1, v.len() - 1)
    } else {
        v
    }
}

/// The test written inside `[...]`.
pub open spec fn attr_test(inner: Seq<char>) -> SimpleV {
    match split_once(inner, '=') {
        Some((n, v)) => SimpleV::Equals(n, unquote(v)),
        None => SimpleV::Has(inner),
    }
}

/// The `#id`, `.class` and `[...]` tests of a compound, in order.
pub open spec fn parse_tail(t: Seq<char>) -> Option<Seq<SimpleV>>
    decreases t.len(),
{
    if t.len() == 0 {
        Some(Seq::empty())
    } else if t[0] == '#' || t[0] == '.' {
        let body = t.drop_first();
        let k = mark_end(body) as int;
        let name = body.take(k);
        proof {
            lemma_mark_end_bound(body);
        }
        if name.len() == 0 {
            None
        } else {
            match parse_tail(body.skip(k)) {
                Some(r) => Some(seq![if t[0] == '#' { SimpleV::Id(name) } else { SimpleV::Class(name) }] + r),
                None => None,
            }
        }
    } else if t[0] == '[' {
        let body = t.drop_first();
        if !has_char(body, ']') {
            None
        } else {
            let j = first_pos(body, ']');
            proof {
                lemma_first_pos(body, ']');
            }
            match parse_tail(body.skip(j + 1)) {
                Some(r) => Some(seq![attr_test(body.take(j))] + r),
                None => None,
            }
        }
    } else {
        None
    }
}

/// A compound selector: an optional tag (`*` or none for any), then tests.
pub open spec fn parse_compound(t: Seq<char>) -> Option<Seq<SimpleV>> {
    let k = mark_end(t) as int;
    let head = t.take(k);
    let first: Seq<SimpleV> = if head.len() == 0 || head == "*"@ { Seq::empty() } else { seq![SimpleV::Tag(head)] };
    match parse_tail(t.skip(k)) {
        Some(rest) => Some(first + rest),
        None => None,
    }
}

/// A complex selector from its words (`>` standing alone), read from the end.
pub open spec fn parse_words(ws: Seq<Seq<char>>) -> Option<ComplexV>
    decreases ws.len(),
{
    if ws.len() == 0 || ws.last() == ">"@ {
        None
    } else {
        match parse_compound(ws.last()) {
            None => None,
            Some(c) => if ws.len() == 1 {
                Some(ComplexV { parts: seq![c], child: Seq::empty() })
            } else if ws[ws.len() - 2] == ">"@ {
                match parse_words(ws.take(ws.len() - 2)) {
                    Some(p) => Some(ComplexV { parts: p.parts.push(c), child: p.child.push(true) }),
                    None => None,
                }
            } else {
                match parse_words(ws.drop_last()) {
                    Some(p) => Some(ComplexV { parts: p.parts.push(c), child: p.child.push(false) }),
                    None => None,
                }
            },
        }
    }
}

/// A complex selector's text, with `>` set apart as a word of its own.
pub open spec fn parse_complex(s: Seq<char>) -> Option<ComplexV> {
    parse_words(words(replace_char(s, '>', " > "@)))
}

pub open spec fn parse_groups(gs: Seq<Seq<char>>) -> Option<Seq<ComplexV>>
    decreases gs.len(),
{
    if gs.len() == 0 {
        Some(Seq::empty())
    } else {
        match (parse_groups(gs.drop_last()), parse_complex(gs.last())) {
            (Some(a), Some(c)) => Some(a.push(c)),
            _ => None,
        }
    }
}

/// A selector list; `None` where any of its selectors is malformed.
pub open spec fn parse_selector(s: Seq<char>) -> Option<Seq<ComplexV>> {
    parse_groups(split_all(s, ','))
}

// ---------------------------------------------------------------------------

pub proof fn lemma_mark_end_bound(t: Seq<char>)
    ensures
        mark_end(t) <= t.len(),
    decreases t.len(),
{
    if t.len() > 0 && !is_mark(t[0]) {
        lemma_mark_end_bound(t.drop_first());
    }
}

proof fn lemma_mark_end(t: Seq<char>, i: int)
    requires
        0 <= i <= t.len(),
        forall|j: int| 0 <= j < i ==> !is_mark(t[j]),
        i == t.len() || is_mark(t[i]),
    ensures
        mark_end(t) == i,
    decreases i,
{
    if i > 0 {
        assert forall|j: int| 0 <= j < i - 1 implies !is_mark(t.drop_first()[j]) by {
            assert(t.drop_first()[j] == t[j + 1]);
        }
        lemma_mark_end(t.drop_first(), i - 1);
    }
}

/// First position at or after `from` holding a mark, or the length.
fn find_mark(t: &Vec<char>, from: usize) -> (r: usize)
    requires
        from <= t@.len(),
    ensures
        from <= r <= t@.len(),
        r - from == mark_end(t@.skip(from as int)),
{
    let mut i = from;
    while i < t.len() && !(t[i] == '#' || t[i] == '.' || t[i] == '[')
        invariant
            from <= i <= t@.len(),
            forall|j: int| from <= j < i ==> !is_mark(t@[j]),
        decreases t.len() - i,
    {
        i = i + 1;
    }
    proof {
        let s = t@.skip(from as int);
        assert forall|j: int| 0 <= j < i - from implies !is_mark(s[j]) by {
            assert(s[j] == t@[from + j]);
        }
        if i < t@.len() {
            assert(s[i - from] == t@[i as int]);
        }
        lemma_mark_end(s, i - from);
    }
    i
}

fn unquote_exec(v: &Vec<char>) -> (r: String)
    ensures
        r@ == unquote(v@),
{
    let n = v.len();
    if n >= 2 && (v[0] == '"' || v[0] == '\'') && v[n - 1] == v[0] {
        substring(v, 1, n - 1)
    } else {
        string_from(v)
    }
}

fn attr_test_exec(inner: &Vec<char>) -> (r: Simple)
    ensures
        simple_view(r) == attr_test(inner@),
{
    match split_once_chars(inner, '=') {
        Some((n, v)) => {
            let vc = chars_of(v.as_str());
            Simple::Equals(n, unquote_exec(&vc))
        },
        None => Simple::Has(string_from(inner)),
    }
}

fn prepend(x: Simple, rest: Vec<Simple>) -> (r: Vec<Simple>)
    ensures
        compound_view(r@) == seq![simple_view(x)] + compound_view(rest@),
{
    let mut r = rest;
    let ghost before = r@;
    let ghost xv = simple_view(x);
    r.insert(0, x);
    assert(compound_view(r@) =~= seq![xv] + compound_view(before));
    r
}

fn parse_tail_exec(t: &Vec<char>, from: usize) -> (r: Option<Vec<Simple>>)
    requires
        from <= t@.len(),
    ensures
        (r matches Some(v) ==> parse_tail(t@.skip(from as int)) == Some(compound_view(v@))),
        r is None ==> parse_tail(t@.skip(from as int)) is None,
    decreases t@.len() - from,
{
    let ghost s = t@.skip(from as int);
    if from == t.len() {
        let v: Vec<Simple> = Vec::new();
        assert(compound_view(v@) =~= Seq::<SimpleV>::empty());
        return Some(v);
    }
    assert(s[0] == t@[from as int]);
    let c = t[from];
    if c == '#' || c == '.' {
        let start = from + 1;
        let end = find_mark(t, start);
        assert(s.drop_first() =~= t@.skip(start as int));
        if end == start {
            return None;
        }
        let name = substring(t, start, end);
        assert(t@.subrange(start as int, end as int) =~= s.drop_first().take(end - start));
        assert(s.drop_first().skip(end - start) =~= t@.skip(end as int));
        match parse_tail_exec(t, end) {
            Some(rest) => {
                let x = if c == '#' { Simple::Id(name) } else { Simple::Class(name) };
                Some(prepend(x, rest))
            },
            None => None,
        }
    } else if c == '[' {
        let start = from + 1;
        assert(s.drop_first() =~= t@.skip(start as int));
        let body = chars_of(substring(t, start, t.len()).as_str());
        assert(t@.subrange(start as int, t@.len() as int) =~= t@.skip(start as int));
        match find_char(&body, ']') {
            None => {
                assert(!has_char(body@, ']'));
                None
            },
            Some(j) => {
                proof {
                    lemma_first_unique(body@, ']', j as int);
                }
                let inner = chars_of(substring(&body, 0, j).as_str());
                assert(body@.subrange(0, j as int) =~= body@.take(j as int));
                assert(body@.skip(j + 1) =~= t@.skip(start + j + 1));
                match parse_tail_exec(t, start + j + 1) {
                    Some(rest) => Some(prepend(attr_test_exec(&inner), rest)),
                    None => None,
                }
            },
        }
    } else {
        None
    }
}

fn parse_compound_exec(t: &Vec<char>) -> (r: Option<Vec<Simple>>)
    ensures
        (r matches Some(v) ==> parse_compound(t@) == Some(compound_view(v@))),
        r is None ==> parse_compound(t@) is None,
{
    let k = find_mark(t, 0);
    assert(t@.skip(0) =~= t@);
    let head = substring(t, 0, k);
    assert(t@.subrange(0, k as int) =~= t@.take(k as int));
    match parse_tail_exec(t, k) {
        None => None,
        Some(rest) => {
            if k == 0 || head == String::from_str("*") {
                assert(Seq::<SimpleV>::empty() + compound_view(rest@) =~= compound_view(rest@));
                Some(rest)
            } else {
                Some(prepend(Simple::Tag(head), rest))
            }
        },
    }
}

/// The whitespace-separated words of `s`, as [`words`] says.
pub fn split_words(s: &Vec<char>) -> (r: Vec<String>)
    ensures
        r@.map(|i: int, w: String| w@) == words(s@),
{
    let mut out: Vec<String> = Vec::new();
    let mut cur: Vec<char> = Vec::new();
    for i in 0..s.len()
        invariant
            out@.map(|i: int, w: String| w@) == split_ws(s@.take(i as int)).drop_last().filter(|w: Seq<char>| w.len() > 0),
            cur@ == split_ws(s@.take(i as int)).last(),
            split_ws(s@.take(i as int)).len() >= 1,
    {
        let ghost pre = split_ws(s@.take(i as int));
        assert(s@.take(i + 1).drop_last() =~= s@.take(i as int));
        assert(s@.take(i + 1).last() == s@[i as int]);
        if is_whitespace(s[i]) {
            if cur.len() > 0 {
                let w = string_from(&cur);
                let ghost before = out@;
                out.push(w);
                assert(out@.map(|i: int, w: String| w@) =~= before.map(|i: int, w: String| w@).push(w@));
            }
            proof {
                pre.drop_last().lemma_filter_push(pre.last(), |w: Seq<char>| w.len() > 0);
                assert(split_ws(s@.take(i + 1)).drop_last() =~= pre);
                assert(pre =~= pre.drop_last().push(pre.last()));
            }
            cur = Vec::new();
            assert(cur@ =~= Seq::<char>::empty());
        } else {
            cur.push(s[i]);
            proof {
                assert(split_ws(s@.take(i + 1)).drop_last() =~= pre.drop_last());
            }
        }
    }
    assert(s@.take(s@.len() as int) =~= s@);
    let ghost all = split_ws(s@);
    if cur.len() > 0 {
        let w = string_from(&cur);
        let ghost before = out@;
        out.push(w);
        assert(out@.map(|i: int, w: String| w@) =~= before.map(|i: int, w: String| w@).push(w@));
    }
    proof {
        all.drop_last().lemma_filter_push(all.last(), |w: Seq<char>| w.len() > 0);
        assert(all =~= all.drop_last().push(all.last()));
    }
    out
}


pub open spec fn words_view(ws: Seq<String>) -> Seq<Seq<char>> {
    ws.map(|i: int, w: String| w@)
}

fn push_part(c: Complex, part: Vec<Simple>, child: bool) -> (r: Complex)
    ensures
        complex_view(r) == (ComplexV {
            parts: complex_view(c).parts.push(compound_view(part@)),
            child: complex_view(c).child.push(child),
        }),
{
    let ghost pv = compound_view(part@);
    let Complex { mut parts, child: mut flags } = c;
    let ghost before = parts@;
    parts.push(part);
    flags.push(child);
    let r = Complex { parts, child: flags };
    assert(complex_view(r).parts =~= before.map(|i: int, p: Vec<Simple>| compound_view(p@)).push(pv));
    r
}

fn parse_words_exec(ws: &Vec<String>, n: usize) -> (r: Option<Complex>)
    requires
        n <= ws@.len(),
    ensures
        (r matches Some(c) ==> parse_words(words_view(ws@).take(n as int)) == Some(complex_view(c))),
        r is None ==> parse_words(words_view(ws@).take(n as int)) is None,
    decreases n,
{
    let ghost w = words_view(ws@).take(n as int);
    if n == 0 {
        return None;
    }
    assert(w.last() == ws@[n - 1]@);
    let gt = String::from_str(">");
    if ws[n - 1] == gt {
        return None;
    }
    let lc = chars_of(ws[n - 1].as_str());
    let c = match parse_compound_exec(&lc) {
        Some(c) => c,
        None => {
            return None;
        },
    };
    if n == 1 {
        let mut parts: Vec<Vec<Simple>> = Vec::new();
        let ghost cv = compound_view(c@);
        parts.push(c);
        let r = Complex { parts, child: Vec::new() };
        assert(complex_view(r).parts =~= seq![cv]);
        assert(complex_view(r).child =~= Seq::<bool>::empty());
        return Some(r);
    }
    assert(w[n - 2] == ws@[n - 2]@);
    if ws[n - 2] == gt {
        if n < 2 {
            return None;
        }
        assert(w.take(n - 2) =~= words_view(ws@).take(n - 2));
        match parse_words_exec(ws, n - 2) {
            Some(p) => Some(push_part(p, c, true)),
            None => None,
        }
    } else {
        assert(w.drop_last() =~= words_view(ws@).take(n - 1));
        match parse_words_exec(ws, n - 1) {
            Some(p) => Some(push_part(p, c, false)),
            None => None,
        }
    }
}

/// Parses one complex selector.
pub fn parse_complex_exec(s: &str) -> (r: Option<Complex>)
    ensures
        (r matches Some(c) ==> parse_complex(s@) == Some(complex_view(c))),
        r is None ==> parse_complex(s@) is None,
{
    let spaced = crate::text::replace(s, '>', " > ");
    let cs = chars_of(spaced.as_str());
    let ws = split_words(&cs);
    assert(words_view(ws@).take(ws@.len() as int) =~= words_view(ws@));
    parse_words_exec(&ws, ws.len())
}

/// Parses a selector list; `None` where any selector in it is malformed.
pub fn parse_selector_exec(s: &str) -> (r: Option<Vec<Complex>>)
    ensures
        (r matches Some(v) ==> parse_selector(s@) == Some(complexes_view(v@))),
        r is None ==> parse_selector(s@) is None,
{
    let cs = chars_of(s);
    let groups = split_chars(&cs, ',');
    let ghost gs = split_all(s@, ',');
    let mut out: Vec<Complex> = Vec::new();
    for i in 0..groups.len()
        invariant
            groups@.len() == gs.len(),
            gs == split_all(s@, ','),
            forall|k: int| 0 <= k < groups@.len() ==> (#[trigger] groups@[k])@ == gs[k],
            parse_groups(gs.take(i as int)) == Some(complexes_view(out@)),
    {
        assert(gs.take(i + 1).drop_last() =~= gs.take(i as int));
        assert(gs.take(i + 1).last() == groups@[i as int]@);
        match parse_complex_exec(groups[i].as_str()) {
            Some(c) => {
                let ghost before = out@;
                out.push(c);
                assert(complexes_view(out@) =~= complexes_view(before).push(complex_view(c)));
            },
            None => {
                proof {
                    lemma_parse_groups_none(gs, i as int + 1);
                }
                assert(gs.take(gs.len() as int) =~= gs);
                return None;
            },
        }
    }
    assert(gs.take(gs.len() as int) =~= gs);
    Some(out)
}

proof fn lemma_parse_groups_none(gs: Seq<Seq<char>>, i: int)
    requires
        0 <= i <= gs.len(),
        parse_groups(gs.take(i)) is None,
    ensures
        parse_groups(gs) is None,
    decreases gs.len() - i,
{
    if i < gs.len() {
        assert(gs.take(i + 1).drop_last() =~= gs.take(i));
        lemma_parse_groups_none(gs, i + 1);
    } else {
        assert(gs.take(i) =~= gs);
    }
}

} // verus!

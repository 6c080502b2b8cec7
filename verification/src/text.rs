//! Character-level string helpers. Text is processed as sequences of
//! `char`s; every helper states its result over `Seq<char>`.

use vstd::prelude::*;

verus! {

/// Appends one character to a string.
/// Calls `String::push`; the contract claims that the string's characters
/// afterwards are the old ones followed by `c`.
#[verifier::external_body]
pub fn push_char(s: &mut String, c: char)
    ensures
        final(s)@ == old(s)@.push(c),
{
    s.push(c);
}

/// The characters of `s`, in order.
pub fn chars_of(s: &str) -> (out: Vec<char>)
    ensures
        out@ == s@,
{
    let mut out: Vec<char> = Vec::new();
    for c in it: s.chars()
        invariant
            out@ == it.seq().take(it.index() as int),
    {
        out.push(c);
    }
    out
}

/// A string holding exactly the given characters.
pub fn string_from(cs: &[char]) -> (s: String)
    ensures
        s@ == cs@,
{
    let mut s = String::new();
    for i in 0..cs.len()
        invariant
            s@ == cs@.take(i as int),
    {
        push_char(&mut s, cs[i]);
        assert(cs@.take(i + 1) =~= cs@.take(i as int).push(cs@[i as int]));
    }
    assert(cs@.take(cs@.len() as int) =~= cs@);
    s
}

/// A string holding `s[from..to]`.
pub fn substring(cs: &[char], from: usize, to: usize) -> (s: String)
    requires
        from <= to <= cs@.len(),
    ensures
        s@ == cs@.subrange(from as int, to as int),
{
    let mut s = String::new();
    let mut i = from;
    while i < to
        invariant
            from <= i <= to <= cs@.len(),
            s@ == cs@.subrange(from as int, i as int),
        decreases to - i,
    {
        push_char(&mut s, cs[i]);
        assert(cs@.subrange(from as int, i + 1) =~= cs@.subrange(from as int, i as int).push(cs@[i as int]));
        i = i + 1;
    }
    s
}

/// `a` followed by `b`.
pub fn concat(a: &str, b: &str) -> (r: String)
    ensures
        r@ == a@ + b@,
{
    let mut r = String::from_str(a);
    r.append(b);
    r
}

pub open spec fn lower_char(c: char) -> char {
    if 'A' <= c && c <= 'Z' {
        ((c as u32) + 32) as char
    } else {
        c
    }
}

pub open spec fn upper_char(c: char) -> char {
    if 'a' <= c && c <= 'z' {
        ((c as u32) - 32) as char
    } else {
        c
    }
}

pub open spec fn lower(s: Seq<char>) -> Seq<char> {
    Seq::new(s.len(), |i: int| lower_char(s[i]))
}

pub open spec fn upper(s: Seq<char>) -> Seq<char> {
    Seq::new(s.len(), |i: int| upper_char(s[i]))
}

pub fn ascii_lower_char(c: char) -> (r: char)
    ensures
        r == lower_char(c),
{
    if 'A' <= c && c <= 'Z' {
        let b: u8 = c as u8;
        (b + 32) as char
    } else {
        c
    }
}

pub fn ascii_upper_char(c: char) -> (r: char)
    ensures
        r == upper_char(c),
{
    if 'a' <= c && c <= 'z' {
        let b: u8 = c as u8;
        (b - 32) as char
    } else {
        c
    }
}

/// ASCII lower-casing, as `str::to_ascii_lowercase`.
pub fn to_ascii_lowercase(s: &str) -> (r: String)
    ensures
        r@ == lower(s@),
{
    let cs = chars_of(s);
    let mut r = String::new();
    for i in 0..cs.len()
        invariant
            cs@ == s@,
            r@ == lower(s@).take(i as int),
    {
        push_char(&mut r, ascii_lower_char(cs[i]));
        assert(lower(s@).take(i + 1) =~= lower(s@).take(i as int).push(lower_char(s@[i as int])));
    }
    assert(lower(s@).take(cs.len() as int) =~= lower(s@));
    r
}

/// ASCII upper-casing, as `str::to_ascii_uppercase`.
pub fn to_ascii_uppercase(s: &str) -> (r: String)
    ensures
        r@ == upper(s@),
{
    let cs = chars_of(s);
    let mut r = String::new();
    for i in 0..cs.len()
        invariant
            cs@ == s@,
            r@ == upper(s@).take(i as int),
    {
        push_char(&mut r, ascii_upper_char(cs[i]));
        assert(upper(s@).take(i + 1) =~= upper(s@).take(i as int).push(upper_char(s@[i as int])));
    }
    assert(upper(s@).take(cs.len() as int) =~= upper(s@));
    r
}

/// Equality up to ASCII case, as `str::eq_ignore_ascii_case`.
pub fn eq_ignore_ascii_case(a: &str, b: &str) -> (r: bool)
    ensures
        r == (lower(a@) == lower(b@)),
{
    let x = chars_of(a);
    let y = chars_of(b);
    if x.len() != y.len() {
        assert(lower(a@).len() != lower(b@).len());
        return false;
    }
    for i in 0..x.len()
        invariant
            x@ == a@,
            y@ == b@,
            x.len() == y.len(),
            forall|j: int| 0 <= j < i ==> lower_char(#[trigger] x@[j]) == lower_char(y@[j]),
    {
        if ascii_lower_char(x[i]) != ascii_lower_char(y[i]) {
            assert(lower(a@)[i as int] != lower(b@)[i as int]);
            return false;
        }
    }
    assert(lower(a@) =~= lower(b@));
    true
}

/// `s` starts with `p`.
pub open spec fn starts_with(s: Seq<char>, p: Seq<char>) -> bool {
    p.len() <= s.len() && s.take(p.len() as int) == p
}

/// `p` occurs in `s` at position `i`.
pub open spec fn occurs_at(s: Seq<char>, p: Seq<char>, i: int) -> bool {
    0 <= i && i + p.len() <= s.len() && s.subrange(i, i + p.len()) == p
}

/// `p` occurs somewhere in `s`.
pub open spec fn contains(s: Seq<char>, p: Seq<char>) -> bool {
    exists|i: int| occurs_at(s, p, i)
}

/// Checks `occurs_at(s, p, i)`.
pub fn matches_at(s: &[char], p: &[char], i: usize) -> (r: bool)
    ensures
        r == occurs_at(s@, p@, i as int),
{
    if i > s.len() || p.len() > s.len() - i {
        return false;
    }
    let mut k: usize = 0;
    while k < p.len()
        invariant
            i + p.len() <= s.len(),
            k <= p.len(),
            forall|j: int| 0 <= j < k ==> s@[i + j] == p@[j],
        decreases p.len() - k,
    {
        if s[i + k] != p[k] {
            assert(s@.subrange(i as int, i + p.len())[k as int] != p@[k as int]);
            return false;
        }
        k = k + 1;
    }
    assert(s@.subrange(i as int, i + p.len()) =~= p@);
    true
}

/// The first position at which `p` occurs in `s`.
pub fn find(s: &[char], p: &[char]) -> (r: Option<usize>)
    ensures
        r matches Some(i) ==> occurs_at(s@, p@, i as int) && forall|j: int| 0 <= j < i ==> !occurs_at(s@, p@, j),
        r is None ==> !contains(s@, p@),
{
    if p.len() > s.len() {
        return None;
    }
    let end = s.len() - p.len();
    let mut i: usize = 0;
    loop
        invariant
            p.len() <= s.len(),
            end == s.len() - p.len(),
            i <= end,
            forall|j: int| 0 <= j < i ==> !occurs_at(s@, p@, j),
        ensures
            forall|j: int| 0 <= j <= end ==> !occurs_at(s@, p@, j),
        decreases end - i,
    {
        if matches_at(s, p, i) {
            return Some(i);
        }
        if i == end {
            break;
        }
        i = i + 1;
    }
    assert forall|j: int| !occurs_at(s@, p@, j) by {
        if 0 <= j <= end {
        }
    }
    None
}

/// Whether `p` occurs in `s`, as `str::contains`.
pub fn str_contains(s: &str, p: &str) -> (r: bool)
    ensures
        r == contains(s@, p@),
{
    let x = chars_of(s);
    let y = chars_of(p);
    find(&x, &y).is_some()
}

/// Whether `s` starts with `p`, as `str::starts_with`.
pub fn str_starts_with(s: &str, p: &str) -> (r: bool)
    ensures
        r == starts_with(s@, p@),
{
    let x = chars_of(s);
    let y = chars_of(p);
    let r = matches_at(&x, &y, 0);
    assert(r == starts_with(s@, p@)) by {
        if p@.len() <= s@.len() {
            assert(s@.subrange(0, p@.len() as int) =~= s@.take(p@.len() as int));
        }
    }
    r
}

/// The first position of `c` in `s`.
pub fn find_char(s: &[char], c: char) -> (r: Option<usize>)
    ensures
        r matches Some(i) ==> i < s@.len() && s@[i as int] == c && forall|j: int| 0 <= j < i ==> s@[j] != c,
        r is None ==> forall|j: int| 0 <= j < s@.len() ==> s@[j] != c,
{
    for i in 0..s.len()
        invariant
            forall|j: int| 0 <= j < i ==> s@[j] != c,
    {
        if s[i] == c {
            return Some(i);
        }
    }
    None
}

/// The last position of `c` in `s`.
pub fn rfind_char(s: &[char], c: char) -> (r: Option<usize>)
    ensures
        r matches Some(i) ==> i < s@.len() && s@[i as int] == c && forall|j: int| i < j < s@.len() ==> s@[j] != c,
        r is None ==> forall|j: int| 0 <= j < s@.len() ==> s@[j] != c,
{
    let mut i = s.len();
    while i > 0
        invariant
            i <= s@.len(),
            forall|j: int| i <= j < s@.len() ==> s@[j] != c,
        decreases i,
    {
        if s[i - 1] == c {
            return Some(i - 1);
        }
        i = i - 1;
    }
    None
}

/// Replaces every occurrence of `c` in `s` by `rep`.
pub open spec fn replace_char(s: Seq<char>, c: char, rep: Seq<char>) -> Seq<char>
    decreases s.len(),
{
    if s.len() == 0 {
        Seq::empty()
    } else {
        replace_char(s.drop_last(), c, rep) + if s.last() == c {
            rep
        } else {
            seq![s.last()]
        }
    }
}

/// Replaces every `c` in `s` by `rep`, as `str::replace` with a `char` pattern.
pub fn replace(s: &str, c: char, rep: &str) -> (r: String)
    ensures
        r@ == replace_char(s@, c, rep@),
{
    let cs = chars_of(s);
    let mut r = String::new();
    for i in 0..cs.len()
        invariant
            cs@ == s@,
            r@ == replace_char(s@.take(i as int), c, rep@),
    {
        assert(s@.take(i + 1).drop_last() =~= s@.take(i as int));
        if cs[i] == c {
            r.append(rep);
        } else {
            push_char(&mut r, cs[i]);
            assert(seq![cs@[i as int]] =~= Seq::<char>::empty().push(cs@[i as int]));
        }
    }
    assert(s@.take(cs.len() as int) =~= s@);
    r
}

/// Unicode `White_Space`, as `char::is_whitespace`.
pub open spec fn is_space(c: char) -> bool {
    ||| '\u{9}' <= c && c <= '\u{d}'
    ||| c == ' '
    ||| c == '\u{85}'
    ||| c == '\u{a0}'
    ||| c == '\u{1680}'
    ||| '\u{2000}' <= c && c <= '\u{200a}'
    ||| c == '\u{2028}'
    ||| c == '\u{2029}'
    ||| c == '\u{202f}'
    ||| c == '\u{205f}'
    ||| c == '\u{3000}'
}

pub fn is_whitespace(c: char) -> (r: bool)
    ensures
        r == is_space(c),
{
    ('\u{9}' <= c && c <= '\u{d}') || c == ' ' || c == '\u{85}' || c == '\u{a0}' || c == '\u{1680}'
        || ('\u{2000}' <= c && c <= '\u{200a}') || c == '\u{2028}' || c == '\u{2029}' || c == '\u{202f}'
        || c == '\u{205f}' || c == '\u{3000}'
}

/// Number of leading whitespace characters.
pub open spec fn lead_ws(s: Seq<char>) -> nat
    decreases s.len(),
{
    if s.len() > 0 && is_space(s[0]) {
        1 + lead_ws(s.drop_first())
    } else {
        0
    }
}

/// Number of trailing whitespace characters.
pub open spec fn trail_ws(s: Seq<char>) -> nat
    decreases s.len(),
{
    if s.len() > 0 && is_space(s.last()) {
        1 + trail_ws(s.drop_last())
    } else {
        0
    }
}

/// `s` without leading and trailing whitespace, as `str::trim`.
pub open spec fn trim(s: Seq<char>) -> Seq<char> {
    let a = lead_ws(s) as int;
    if a == s.len() {
        Seq::empty()
    } else {
        s.subrange(a, s.len() - trail_ws(s))
    }
}

proof fn lemma_lead_ws(s: Seq<char>, i: int)
    requires
        0 <= i <= s.len(),
        forall|j: int| 0 <= j < i ==> is_space(#[trigger] s[j]),
    ensures
        lead_ws(s) >= i,
        lead_ws(s) <= s.len(),
        i == lead_ws(s) <== (i == s.len() || !is_space(s[i])),
    decreases i,
{
    if i > 0 {
        lemma_lead_ws(s.drop_first(), i - 1);
    } else {
        lemma_lead_ws_bound(s);
        if s.len() > 0 && !is_space(s[0]) {
        }
    }
}

proof fn lemma_lead_ws_bound(s: Seq<char>)
    ensures
        lead_ws(s) <= s.len(),
        lead_ws(s) < s.len() ==> !is_space(s[lead_ws(s) as int]),
        forall|j: int| 0 <= j < lead_ws(s) ==> is_space(#[trigger] s[j]),
    decreases s.len(),
{
    if s.len() > 0 && is_space(s[0]) {
        lemma_lead_ws_bound(s.drop_first());
        assert forall|j: int| 0 <= j < lead_ws(s) implies is_space(#[trigger] s[j]) by {
            if j > 0 {
                assert(s[j] == s.drop_first()[j - 1]);
            }
        }
    }
}

proof fn lemma_trail_ws_bound(s: Seq<char>)
    ensures
        trail_ws(s) <= s.len(),
        trail_ws(s) < s.len() ==> !is_space(s[s.len() - trail_ws(s) - 1]),
        forall|j: int| s.len() - trail_ws(s) <= j < s.len() ==> is_space(#[trigger] s[j]),
    decreases s.len(),
{
    if s.len() > 0 && is_space(s.last()) {
        lemma_trail_ws_bound(s.drop_last());
        assert forall|j: int| s.len() - trail_ws(s) <= j < s.len() implies is_space(#[trigger] s[j]) by {
            if j < s.len() - 1 {
                assert(s[j] == s.drop_last()[j]);
            }
        }
    }
}

proof fn lemma_lead_ws_exact(s: Seq<char>, i: int)
    requires
        0 <= i <= s.len(),
        forall|j: int| 0 <= j < i ==> is_space(#[trigger] s[j]),
        i == s.len() || !is_space(s[i]),
    ensures
        lead_ws(s) == i,
{
    lemma_lead_ws_bound(s);
    if lead_ws(s) < i {
        assert(is_space(s[lead_ws(s) as int]));
    }
    if lead_ws(s) > i {
        assert(is_space(s[i]));
    }
}

proof fn lemma_trail_ws_exact(s: Seq<char>, e: int)
    requires
        0 <= e <= s.len(),
        forall|j: int| e <= j < s.len() ==> is_space(#[trigger] s[j]),
        e == 0 || !is_space(s[e - 1]),
    ensures
        trail_ws(s) == s.len() - e,
{
    lemma_trail_ws_bound(s);
    let t = s.len() - trail_ws(s);
    if t > e {
        assert(is_space(s[t - 1]));
    }
    if t < e {
        assert(is_space(s[e - 1]));
    }
}

/// Positions `(a, b)` such that `s[a..b]` is `trim(s)`.
pub fn trim_bounds(s: &[char]) -> (r: (usize, usize))
    ensures
        r.0 <= r.1 <= s@.len(),
        s@.subrange(r.0 as int, r.1 as int) == trim(s@),
{
    let mut a: usize = 0;
    while a < s.len() && is_whitespace(s[a])
        invariant
            a <= s@.len(),
            forall|j: int| 0 <= j < a ==> is_space(#[trigger] s@[j]),
        decreases s.len() - a,
    {
        a = a + 1;
    }
    proof {
        lemma_lead_ws_exact(s@, a as int);
    }
    if a == s.len() {
        assert(s@.subrange(a as int, a as int) =~= Seq::<char>::empty());
        return (a, a);
    }
    let mut b: usize = s.len();
    while b > a && is_whitespace(s[b - 1])
        invariant
            a < s@.len(),
            !is_space(s@[a as int]),
            a <= b <= s@.len(),
            forall|j: int| b <= j < s@.len() ==> is_space(#[trigger] s@[j]),
        decreases b,
    {
        b = b - 1;
    }
    proof {
        lemma_trail_ws_exact(s@, b as int);
    }
    (a, b)
}

/// `s` without leading and trailing whitespace, as `str::trim`.
pub fn str_trim(s: &str) -> (r: String)
    ensures
        r@ == trim(s@),
{
    let cs = chars_of(s);
    let (a, b) = trim_bounds(&cs);
    substring(&cs, a, b)
}

/// Decimal digits of a natural number.
pub open spec fn nat_digits(n: nat) -> Seq<char>
    decreases n,
{
    if n < 10 {
        seq![digit_char(n)]
    } else {
        nat_digits(n / 10).push(digit_char(n % 10))
    }
}

pub open spec fn digit_char(d: nat) -> char {
    (('0' as u32) + d) as char
}

/// Decimal text of an integer, with a leading `-` when negative.
pub open spec fn int_text(n: int) -> Seq<char> {
    if n < 0 {
        seq!['-'] + nat_digits((-n) as nat)
    } else {
        nat_digits(n as nat)
    }
}

fn digit(d: u64) -> (c: char)
    requires
        d < 10,
    ensures
        c == digit_char(d as nat),
{
    let b: u8 = d as u8;
    (b + 48) as char
}

/// Decimal text of `n`.
pub fn u64_text(n: u64) -> (r: String)
    ensures
        r@ == nat_digits(n as nat),
    decreases n,
{
    if n < 10 {
        let mut r = String::new();
        push_char(&mut r, digit(n));
        assert(r@ =~= seq![digit_char(n as nat)]);
        r
    } else {
        let mut r = u64_text(n / 10);
        push_char(&mut r, digit(n % 10));
        r
    }
}

/// Decimal text of `n`, as `i64::to_string`.
pub fn i64_text(n: i64) -> (r: String)
    ensures
        r@ == int_text(n as int),
{
    if n < 0 {
        let m: u64 = if n == i64::MIN {
            9223372036854775808u64
        } else {
            (-n) as u64
        };
        let mut r = String::new();
        push_char(&mut r, '-');
        let d = u64_text(m);
        r.append(d.as_str());
        assert(r@ =~= seq!['-'] + nat_digits((-n) as nat));
        r
    } else {
        u64_text(n as u64)
    }
}

} // verus!

verus! {

/// `i` is the first position of `c` in `s`.
pub open spec fn is_first(s: Seq<char>, c: char, i: int) -> bool {
    0 <= i < s.len() && s[i] == c && forall|j: int| 0 <= j < i ==> s[j] != c
}

/// `i` is the last position of `c` in `s`.
pub open spec fn is_last(s: Seq<char>, c: char, i: int) -> bool {
    0 <= i < s.len() && s[i] == c && forall|j: int| i < j < s.len() ==> s[j] != c
}

/// `i` is the first position at which `p` occurs in `s`.
pub open spec fn is_first_occ(s: Seq<char>, p: Seq<char>, i: int) -> bool {
    occurs_at(s, p, i) && forall|j: int| 0 <= j < i ==> !occurs_at(s, p, j)
}

pub open spec fn has_char(s: Seq<char>, c: char) -> bool {
    exists|i: int| 0 <= i < s.len() && s[i] == c
}

/// The first position of `c` in `s` (meaningful when `has_char(s, c)`).
pub open spec fn first_pos(s: Seq<char>, c: char) -> int {
    choose|i: int| is_first(s, c, i)
}

/// The last position of `c` in `s` (meaningful when `has_char(s, c)`).
pub open spec fn last_pos(s: Seq<char>, c: char) -> int {
    choose|i: int| is_last(s, c, i)
}

/// The first position of `p` in `s` (meaningful when `contains(s, p)`).
pub open spec fn first_occ(s: Seq<char>, p: Seq<char>) -> int {
    choose|i: int| is_first_occ(s, p, i)
}

/// Split at the first `c`: the text before and after it, as `str::split_once`.
pub open spec fn split_once(s: Seq<char>, c: char) -> Option<(Seq<char>, Seq<char>)> {
    if has_char(s, c) {
        let i = first_pos(s, c);
        Some((s.take(i), s.skip(i + 1)))
    } else {
        None
    }
}

/// Split at the last `c`, as `str::rsplit_once`.
pub open spec fn rsplit_once(s: Seq<char>, c: char) -> Option<(Seq<char>, Seq<char>)> {
    if has_char(s, c) {
        let i = last_pos(s, c);
        Some((s.take(i), s.skip(i + 1)))
    } else {
        None
    }
}

/// The text before the first `c`, or all of `s`: `s.split(c).next()`.
pub open spec fn before_first(s: Seq<char>, c: char) -> Seq<char> {
    match split_once(s, c) {
        Some((a, _)) => a,
        None => s,
    }
}

pub proof fn lemma_first_unique(s: Seq<char>, c: char, i: int)
    requires
        is_first(s, c, i),
    ensures
        has_char(s, c),
        first_pos(s, c) == i,
{
    assert(is_first(s, c, i));
    let k = first_pos(s, c);
    assert(is_first(s, c, k));
    if k < i {
        assert(s[k] != c);
    }
    if k > i {
        assert(s[i] != c);
    }
}

pub proof fn lemma_last_unique(s: Seq<char>, c: char, i: int)
    requires
        is_last(s, c, i),
    ensures
        has_char(s, c),
        last_pos(s, c) == i,
{
    assert(is_last(s, c, i));
    let k = last_pos(s, c);
    assert(is_last(s, c, k));
    if k < i {
        assert(s[i] != c);
    }
    if k > i {
        assert(s[k] != c);
    }
}

pub proof fn lemma_first_occ_unique(s: Seq<char>, p: Seq<char>, i: int)
    requires
        is_first_occ(s, p, i),
    ensures
        contains(s, p),
        first_occ(s, p) == i,
{
    assert(is_first_occ(s, p, i));
    let k = first_occ(s, p);
    assert(is_first_occ(s, p, k));
}

/// Exec split at the first `c`.
pub fn split_once_chars(s: &[char], c: char) -> (r: Option<(String, String)>)
    ensures
        r matches Some(p) ==> split_once(s@, c) == Some((p.0@, p.1@)),
        r is None ==> split_once(s@, c) is None,
{
    match find_char(s, c) {
        Some(i) => {
            proof {
                lemma_first_unique(s@, c, i as int);
            }
            assert(i < s.len());
            let a = substring(s, 0, i);
            let b = substring(s, i + 1, s.len());
            assert(s@.subrange(0, i as int) =~= s@.take(i as int));
            assert(s@.subrange(i + 1, s@.len() as int) =~= s@.skip(i + 1));
            Some((a, b))
        },
        None => {
            assert(!has_char(s@, c));
            None
        },
    }
}

/// Exec split at the last `c`.
pub fn rsplit_once_chars(s: &[char], c: char) -> (r: Option<(String, String)>)
    ensures
        r matches Some(p) ==> rsplit_once(s@, c) == Some((p.0@, p.1@)),
        r is None ==> rsplit_once(s@, c) is None,
{
    match rfind_char(s, c) {
        Some(i) => {
            proof {
                lemma_last_unique(s@, c, i as int);
            }
            assert(i < s.len());
            let a = substring(s, 0, i);
            let b = substring(s, i + 1, s.len());
            assert(s@.subrange(0, i as int) =~= s@.take(i as int));
            assert(s@.subrange(i + 1, s@.len() as int) =~= s@.skip(i + 1));
            Some((a, b))
        },
        None => {
            assert(!has_char(s@, c));
            None
        },
    }
}

/// `s.split(c).next()`: the text before the first `c`, or all of `s`.
pub fn before_first_chars(s: &[char], c: char) -> (r: String)
    ensures
        r@ == before_first(s@, c),
{
    match split_once_chars(s, c) {
        Some((a, _)) => a,
        None => string_from(s),
    }
}

/// Pieces of `s` between occurrences of `c`, as `str::split`.
pub open spec fn split_all(s: Seq<char>, c: char) -> Seq<Seq<char>>
    decreases s.len(),
{
    if s.len() == 0 {
        seq![Seq::empty()]
    } else {
        let rest = split_all(s.drop_last(), c);
        if s.last() == c {
            rest.push(Seq::empty())
        } else {
            rest.update(rest.len() - 1, rest.last().push(s.last()))
        }
    }
}

pub proof fn lemma_split_all_nonempty(s: Seq<char>, c: char)
    ensures
        split_all(s, c).len() >= 1,
    decreases s.len(),
{
    if s.len() > 0 {
        lemma_split_all_nonempty(s.drop_last(), c);
    }
}

/// Exec `str::split` by a character.
pub fn split_chars(s: &[char], c: char) -> (r: Vec<String>)
    ensures
        r@.len() == split_all(s@, c).len(),
        forall|i: int| 0 <= i < r@.len() ==> (#[trigger] r@[i])@ == split_all(s@, c)[i],
{
    let mut out: Vec<String> = Vec::new();
    let mut cur: Vec<char> = Vec::new();
    for i in 0..s.len()
        invariant
            out@.len() + 1 == split_all(s@.take(i as int), c).len(),
            forall|k: int| 0 <= k < out@.len() ==> (#[trigger] out@[k])@ == split_all(s@.take(i as int), c)[k],
            cur@ == split_all(s@.take(i as int), c).last(),
    {
        proof {
            lemma_split_all_nonempty(s@.take(i as int), c);
            assert(s@.take(i + 1).drop_last() =~= s@.take(i as int));
        }
        if s[i] == c {
            let piece = string_from(&cur);
            out.push(piece);
            cur = Vec::new();
            assert(cur@ =~= Seq::<char>::empty());
        } else {
            cur.push(s[i]);
        }
    }
    proof {
        lemma_split_all_nonempty(s@.take(s@.len() as int), c);
        assert(s@.take(s@.len() as int) =~= s@);
    }
    let last = string_from(&cur);
    out.push(last);
    out
}


/// Equality of two strings' characters.
pub fn str_eq(a: &str, b: &str) -> (r: bool)
    ensures
        r == (a@ == b@),
{
    String::from_str(a) == String::from_str(b)
}

/// `s` without its trailing `c` characters, as `str::trim_end_matches`.
pub open spec fn trim_end_char(s: Seq<char>, c: char) -> Seq<char>
    decreases s.len(),
{
    if s.len() > 0 && s.last() == c {
        trim_end_char(s.drop_last(), c)
    } else {
        s
    }
}

/// Exec `str::trim_end_matches` by a character.
pub fn trim_end_matches_char(s: &str, c: char) -> (r: String)
    ensures
        r@ == trim_end_char(s@, c),
{
    let cs = chars_of(s);
    let mut e: usize = cs.len();
    assert(cs@.take(e as int) =~= s@);
    while e > 0 && cs[e - 1] == c
        invariant
            e <= cs@.len(),
            cs@ == s@,
            trim_end_char(cs@.take(e as int), c) == trim_end_char(s@, c),
        decreases e,
    {
        assert(cs@.take(e as int).drop_last() =~= cs@.take(e - 1));
        e = e - 1;
    }
    assert(cs@.subrange(0, e as int) =~= cs@.take(e as int));
    substring(&cs, 0, e)
}

/// Lexicographic order of strings by character code, the order of `str`'s `<`.
pub open spec fn seq_less(a: Seq<char>, b: Seq<char>) -> bool
    decreases a.len(),
{
    if a.len() == 0 {
        b.len() > 0
    } else if b.len() == 0 {
        false
    } else if a[0] != b[0] {
        (a[0] as int) < (b[0] as int)
    } else {
        seq_less(a.drop_first(), b.drop_first())
    }
}

pub proof fn lemma_seq_less_irrefl(a: Seq<char>)
    ensures
        !seq_less(a, a),
    decreases a.len(),
{
    if a.len() > 0 {
        lemma_seq_less_irrefl(a.drop_first());
    }
}

pub proof fn lemma_seq_less_total(a: Seq<char>, b: Seq<char>)
    ensures
        a == b || seq_less(a, b) || seq_less(b, a),
        !(seq_less(a, b) && seq_less(b, a)),
    decreases a.len(),
{
    if a.len() > 0 && b.len() > 0 {
        lemma_seq_less_total(a.drop_first(), b.drop_first());
        if a[0] == b[0] && a.drop_first() == b.drop_first() {
            assert(a =~= seq![a[0]] + a.drop_first());
            assert(b =~= seq![b[0]] + b.drop_first());
        }
        if a[0] != b[0] {
            assert((a[0] as int) != (b[0] as int));
        }
    } else if a.len() == 0 && b.len() == 0 {
        assert(a =~= b);
    }
}

pub proof fn lemma_seq_less_trans(a: Seq<char>, b: Seq<char>, c: Seq<char>)
    requires
        seq_less(a, b),
        seq_less(b, c),
    ensures
        seq_less(a, c),
    decreases a.len(),
{
    if a.len() > 0 && b.len() > 0 && c.len() > 0 && a[0] == b[0] && b[0] == c[0] {
        lemma_seq_less_trans(a.drop_first(), b.drop_first(), c.drop_first());
    }
}

/// Exec `<` on strings.
pub fn str_less(a: &str, b: &str) -> (r: bool)
    ensures
        r == seq_less(a@, b@),
{
    let x = chars_of(a);
    let y = chars_of(b);
    let mut i: usize = 0;
    assert(a@.skip(0) =~= a@);
    assert(b@.skip(0) =~= b@);
    while i < x.len() && i < y.len() && x[i] == y[i]
        invariant
            i <= x@.len(),
            i <= y@.len(),
            x@ == a@,
            y@ == b@,
            seq_less(a@, b@) == seq_less(a@.skip(i as int), b@.skip(i as int)),
        decreases x.len() - i,
    {
        assert(a@.skip(i as int).drop_first() =~= a@.skip(i + 1));
        assert(b@.skip(i as int).drop_first() =~= b@.skip(i + 1));
        i = i + 1;
    }
    let ghost sa = a@.skip(i as int);
    let ghost sb = b@.skip(i as int);
    if i == x.len() {
        i < y.len()
    } else if i == y.len() {
        false
    } else {
        assert(sa[0] == x@[i as int] && sb[0] == y@[i as int]);
        x[i] < y[i]
    }
}

/// Whether every character is an ASCII digit.
pub open spec fn all_ascii_digits(s: Seq<char>) -> bool {
    forall|i: int| 0 <= i < s.len() ==> '0' <= #[trigger] s[i] <= '9'
}

/// Value of a string of ASCII digits.
pub open spec fn digits_value(s: Seq<char>) -> nat
    decreases s.len(),
{
    if s.len() == 0 {
        0
    } else {
        digits_value(s.drop_last()) * 10 + ((s.last() as u32) - ('0' as u32)) as nat
    }
}

/// Parses a string of ASCII digits as a `u16`, as `str::parse::<u16>` does on such text:
/// `None` where it is empty or its value exceeds `u16::MAX`.
pub fn parse_u16_digits(s: &[char]) -> (r: Option<u16>)
    requires
        all_ascii_digits(s@),
    ensures
        r matches Some(n) ==> s@.len() > 0 && digits_value(s@) == n as nat,
        r is None ==> s@.len() == 0 || digits_value(s@) > u16::MAX as nat,
{
    if s.len() == 0 {
        return None;
    }
    let mut v: u32 = 0;
    for i in 0..s.len()
        invariant
            all_ascii_digits(s@),
            v as nat == digits_value(s@.take(i as int)),
            v <= u16::MAX,
    {
        assert(s@.take(i + 1).drop_last() =~= s@.take(i as int));
        assert('0' <= s@[i as int] <= '9');
        let d: u32 = (s[i] as u32) - 48;
        let next: u32 = v * 10 + d;
        if next > 65535 {
            proof {
                lemma_digits_value_grows(s@, i + 1);
            }
            return None;
        }
        v = next;
    }
    assert(s@.take(s@.len() as int) =~= s@);
    Some(v as u16)
}

proof fn lemma_digits_value_grows(s: Seq<char>, i: int)
    requires
        all_ascii_digits(s),
        0 <= i <= s.len(),
    ensures
        digits_value(s) >= digits_value(s.take(i)),
    decreases s.len() - i,
{
    if i < s.len() {
        lemma_digits_value_grows(s, i + 1);
        assert(s.take(i + 1).drop_last() =~= s.take(i));
    } else {
        assert(s.take(i) =~= s);
    }
}

/// Characters of `s` with `"`, `\` and the common control characters
/// escaped, in double quotes: the `{:?}` text of a string made of printable
/// characters.
pub open spec fn quote_char(c: char) -> Seq<char> {
    if c == '"' {
        seq!['\\', '"']
    } else if c == '\\' {
        seq!['\\', '\\']
    } else if c == '\n' {
        seq!['\\', 'n']
    } else if c == '\r' {
        seq!['\\', 'r']
    } else if c == '\t' {
        seq!['\\', 't']
    } else if c == '\0' {
        seq!['\\', '0']
    } else {
        seq![c]
    }
}

pub open spec fn quote_body(s: Seq<char>) -> Seq<char>
    decreases s.len(),
{
    if s.len() == 0 {
        Seq::empty()
    } else {
        quote_body(s.drop_last()) + quote_char(s.last())
    }
}

pub open spec fn quoted(s: Seq<char>) -> Seq<char> {
    seq!['"'] + quote_body(s) + seq!['"']
}

/// `{:?}` text of a string.
pub fn debug_quote(s: &str) -> (r: String)
    ensures
        r@ == quoted(s@),
{
    let cs = chars_of(s);
    let mut r = String::new();
    push_char(&mut r, '"');
    for i in 0..cs.len()
        invariant
            cs@ == s@,
            r@ == seq!['"'] + quote_body(s@.take(i as int)),
    {
        let c = cs[i];
        assert(s@.take(i + 1).drop_last() =~= s@.take(i as int));
        if c == '"' || c == '\\' {
            push_char(&mut r, '\\');
            push_char(&mut r, c);
        } else if c == '\n' {
            push_char(&mut r, '\\');
            push_char(&mut r, 'n');
        } else if c == '\r' {
            push_char(&mut r, '\\');
            push_char(&mut r, 'r');
        } else if c == '\t' {
            push_char(&mut r, '\\');
            push_char(&mut r, 't');
        } else if c == '\0' {
            push_char(&mut r, '\\');
            push_char(&mut r, '0');
        } else {
            push_char(&mut r, c);
        }
        assert(r@ =~= seq!['"'] + quote_body(s@.take(i + 1)));
    }
    push_char(&mut r, '"');
    assert(s@.take(cs.len() as int) =~= s@);
    r
}


proof fn lemma_first_exists(s: Seq<char>, c: char, i: int)
    requires
        0 <= i < s.len(),
        s[i] == c,
    ensures
        exists|k: int| is_first(s, c, k),
    decreases i,
{
    if exists|j: int| 0 <= j < i && s[j] == c {
        let j = choose|j: int| 0 <= j < i && s[j] == c;
        lemma_first_exists(s, c, j);
    } else {
        assert(is_first(s, c, i));
    }
}

/// Where `c` occurs, `first_pos` is its first position.
pub proof fn lemma_first_pos(s: Seq<char>, c: char)
    requires
        has_char(s, c),
    ensures
        is_first(s, c, first_pos(s, c)),
{
    let i = choose|i: int| 0 <= i < s.len() && s[i] == c;
    lemma_first_exists(s, c, i);
}


/// Parses a string of ASCII digits as a `u64`: `None` where it is empty or
/// its value exceeds `max`.
pub fn parse_digits_max(s: &[char], max: u64) -> (r: Option<u64>)
    requires
        all_ascii_digits(s@),
    ensures
        r matches Some(n) ==> s@.len() > 0 && digits_value(s@) == n as nat && n <= max,
        r is None ==> s@.len() == 0 || digits_value(s@) > max as nat,
{
    if s.len() == 0 {
        return None;
    }
    let mut v: u64 = 0;
    for i in 0..s.len()
        invariant
            all_ascii_digits(s@),
            v as nat == digits_value(s@.take(i as int)),
            v <= max,
    {
        assert(s@.take(i + 1).drop_last() =~= s@.take(i as int));
        assert('0' <= s@[i as int] <= '9');
        let d: u64 = (s[i] as u64) - 48;
        let next: u128 = (v as u128) * 10 + (d as u128);
        if next > max as u128 {
            proof {
                lemma_digits_value_grows(s@, i + 1);
            }
            return None;
        }
        v = next as u64;
    }
    assert(s@.take(s@.len() as int) =~= s@);
    Some(v)
}


proof fn lemma_last_exists(s: Seq<char>, c: char, i: int)
    requires
        0 <= i < s.len(),
        s[i] == c,
    ensures
        exists|k: int| is_last(s, c, k),
    decreases s.len() - i,
{
    if exists|j: int| i < j < s.len() && s[j] == c {
        let j = choose|j: int| i < j < s.len() && s[j] == c;
        lemma_last_exists(s, c, j);
    } else {
        assert(is_last(s, c, i));
    }
}

/// Where `c` occurs, `last_pos` is its last position.
pub proof fn lemma_last_pos(s: Seq<char>, c: char)
    requires
        has_char(s, c),
    ensures
        is_last(s, c, last_pos(s, c)),
{
    let i = choose|i: int| 0 <= i < s.len() && s[i] == c;
    lemma_last_exists(s, c, i);
}


/// Replacing a character distributes over concatenation.
pub proof fn lemma_replace_char_concat(a: Seq<char>, b: Seq<char>, c: char, rep: Seq<char>)
    ensures
        replace_char(a + b, c, rep) == replace_char(a, c, rep) + replace_char(b, c, rep),
    decreases b.len(),
{
    if b.len() == 0 {
        assert(a + b =~= a);
        assert(replace_char(a, c, rep) + Seq::<char>::empty() =~= replace_char(a, c, rep));
    } else {
        lemma_replace_char_concat(a, b.drop_last(), c, rep);
        assert((a + b).drop_last() =~= a + b.drop_last());
        assert((a + b).last() == b.last());
        let t: Seq<char> = if b.last() == c { rep } else { seq![b.last()] };
        assert(replace_char(a, c, rep) + replace_char(b.drop_last(), c, rep) + t
            =~= replace_char(a, c, rep) + (replace_char(b.drop_last(), c, rep) + t));
    }
}

/// Text without `c` is left as it is.
pub proof fn lemma_replace_char_absent(s: Seq<char>, c: char, rep: Seq<char>)
    requires
        forall|i: int| 0 <= i < s.len() ==> s[i] != c,
    ensures
        replace_char(s, c, rep) == s,
    decreases s.len(),
{
    if s.len() > 0 {
        lemma_replace_char_absent(s.drop_last(), c, rep);
        assert(s.drop_last() + seq![s.last()] =~= s);
    }
}

/// A single character is replaced when it is `c`, else kept.
pub proof fn lemma_replace_char_single(x: char, c: char, rep: Seq<char>)
    ensures
        replace_char(seq![x], c, rep) == if x == c { rep } else { seq![x] },
{
    assert(seq![x].drop_last() =~= Seq::<char>::empty());
    assert(seq![x].last() == x);
    assert(seq![x].len() == 1);
    assert(replace_char(Seq::<char>::empty(), c, rep) == Seq::<char>::empty());
    assert(replace_char(seq![x], c, rep) == replace_char(seq![x].drop_last(), c, rep) + if x == c { rep } else { seq![x] });
    assert(Seq::<char>::empty() + rep =~= rep);
    assert(Seq::<char>::empty() + seq![x] =~= seq![x]);
}

} // verus!

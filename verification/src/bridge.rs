//! The HTTP exchange with the browser bridge: the URL a call is posted to
//! is in `authority`; here are the readings of the reply's status line and
//! headers, and what a reply's status means for the call.

use vstd::prelude::*;

use crate::call_args::str_result;
use crate::origin::BridgeUrl;
use crate::dom_tree::words;
use crate::selector::split_words;
use crate::text::{
    all_ascii_digits, chars_of, digits_value, eq_ignore_ascii_case, lower, nat_digits,
    parse_digits_max, split_once, split_once_chars, str_trim, substring, trim, u64_text,
};

verus! {

/// An unsigned integer as `str::parse` reads it: an optional `+`, then one
/// or more ASCII digits whose value is at most `max`.
pub open spec fn parse_uint_spec(s: Seq<char>, max: nat) -> Option<nat> {
    let d = if s.len() > 0 && s[0] == '+' { s.drop_first() } else { s };
    if d.len() > 0 && all_ascii_digits(d) && digits_value(d) <= max {
        Some(digits_value(d))
    } else {
        None
    }
}

/// Parses an unsigned integer no larger than `max`.
pub fn parse_uint(s: &str, max: u64) -> (r: Option<u64>)
    ensures
        (r matches Some(n) ==> parse_uint_spec(s@, max as nat) == Some(n as nat)),
        r is None ==> parse_uint_spec(s@, max as nat) is None,
{
    let cs = chars_of(s);
    let start: usize = if cs.len() > 0 && cs[0] == '+' { 1 } else { 0 };
    let d = chars_of(substring(&cs, start, cs.len()).as_str());
    proof {
        if start == 1 {
            assert(cs@.subrange(1, cs@.len() as int) =~= s@.drop_first());
        } else {
            assert(cs@.subrange(0, cs@.len() as int) =~= s@);
        }
    }
    let ghost dd = if s@.len() > 0 && s@[0] == '+' { s@.drop_first() } else { s@ };
    assert(d@ == dd);
    let mut k: usize = 0;
    while k < d.len()
        invariant
            d@ == dd,
            dd == (if s@.len() > 0 && s@[0] == '+' { s@.drop_first() } else { s@ }),
            k <= d@.len(),
            forall|j: int| 0 <= j < k ==> '0' <= #[trigger] d@[j] <= '9',
        decreases d.len() - k,
    {
        if !('0' <= d[k] && d[k] <= '9') {
            assert(!all_ascii_digits(d@));
            return None;
        }
        k = k + 1;
    }
    parse_digits_max(&d, max)
}

/// The status code of a reply's status line: its second whitespace-separated
/// word, as a `u16`.
pub open spec fn status_code_spec(line: Seq<char>) -> Result<u16, Seq<char>> {
    let ws = words(line);
    if ws.len() < 2 {
        Err("browser bridge: missing HTTP status"@)
    } else {
        match parse_uint_spec(ws[1], u16::MAX as nat) {
            Some(n) => Ok(n as u16),
            None => Err("browser bridge: bad HTTP status line "@ + trim(line)),
        }
    }
}

pub open spec fn status_result(r: Result<u16, String>) -> Result<u16, Seq<char>> {
    match r {
        Ok(n) => Ok(n),
        Err(e) => Err(e@),
    }
}

/// Reads the status code of a reply.
pub fn status_code(status_line: &str) -> (r: Result<u16, String>)
    ensures
        status_result(r) == status_code_spec(status_line@),
{
    let cs = chars_of(status_line);
    let ws = split_words(&cs);
    if ws.len() < 2 {
        return Err(String::from_str("browser bridge: missing HTTP status"));
    }
    assert(ws@.map(|i: int, w: String| w@)[1] == ws@[1]@);
    match parse_uint(ws[1].as_str(), 65535) {
        Some(n) => Ok(n as u16),
        None => {
            let mut e = String::from_str("browser bridge: bad HTTP status line ");
            e.append(str_trim(status_line).as_str());
            Err(e)
        },
    }
}

/// What one header line says of the body length: nothing where it is not a
/// `Content-Length` line (any case), else its trimmed value as a `usize`,
/// or `None` where that does not parse.
pub open spec fn length_line_spec(line: Seq<char>) -> Option<Option<nat>> {
    match split_once(line, ':') {
        Some((name, value)) => if lower(name) == lower("content-length"@) {
            Some(parse_uint_spec(trim(value), usize::MAX as nat))
        } else {
            None
        },
        None => None,
    }
}

/// The body length that a reply's header lines give: the last
/// `Content-Length` line decides.
pub open spec fn content_length_spec(lines: Seq<Seq<char>>) -> Option<nat>
    decreases lines.len(),
{
    if lines.len() == 0 {
        None
    } else {
        match length_line_spec(lines.last()) {
            Some(v) => v,
            None => content_length_spec(lines.drop_last()),
        }
    }
}

pub fn content_length(lines: &Vec<String>) -> (r: Option<usize>)
    ensures
        (r matches Some(n) ==> content_length_spec(lines@.map(|i: int, l: String| l@)) == Some(n as nat)),
        r is None ==> content_length_spec(lines@.map(|i: int, l: String| l@)) is None,
{
    let ghost lv = lines@.map(|i: int, l: String| l@);
    let mut found: Option<usize> = None;
    let mut decided = false;
    assert(lv.take(0) =~= Seq::<Seq<char>>::empty());
    for i in 0..lines.len()
        invariant
            lv == lines@.map(|i: int, l: String| l@),
            (found matches Some(n) ==> content_length_spec(lv.take(i as int)) == Some(n as nat)),
            found is None ==> content_length_spec(lv.take(i as int)) is None,
    {
        assert(lv.take(i + 1).drop_last() =~= lv.take(i as int));
        assert(lv.take(i + 1).last() == lines@[i as int]@);
        let cs = chars_of(lines[i].as_str());
        match split_once_chars(&cs, ':') {
            Some((name, value)) => {
                if eq_ignore_ascii_case(name.as_str(), "content-length") {
                    let t = str_trim(value.as_str());
                    found = match parse_uint(t.as_str(), usize::MAX as u64) {
                        Some(n) => Some(n as usize),
                        None => None,
                    };
                }
            },
            None => {},
        }
    }
    assert(lv.take(lines@.len() as int) =~= lv);
    found
}

/// What a reply means for the call: its text for a 2xx status, else an
/// error naming the status and the text.
pub open spec fn bridge_result_spec(status: u16, text: Seq<char>) -> Result<Seq<char>, Seq<char>> {
    if 200 <= status < 300 {
        Ok(text)
    } else {
        Err("browser bridge returned HTTP "@ + nat_digits(status as nat) + ": "@ + text)
    }
}

pub fn bridge_result(status: u16, text: String) -> (r: Result<String, String>)
    ensures
        str_result(r) == bridge_result_spec(status, text@),
{
    if 200 <= status && status < 300 {
        Ok(text)
    } else {
        let mut e = String::from_str("browser bridge returned HTTP ");
        e.append(u64_text(status as u64).as_str());
        e.append(": ");
        e.append(text.as_str());
        Err(e)
    }
}


/// Number of bytes of a character in UTF-8.
pub open spec fn utf8_width(c: char) -> nat {
    if (c as u32) < 0x80 {
        1
    } else if (c as u32) < 0x800 {
        2
    } else if (c as u32) < 0x10000 {
        3
    } else {
        4
    }
}

/// Number of bytes of a string in UTF-8.
pub open spec fn utf8_len(s: Seq<char>) -> nat
    decreases s.len(),
{
    if s.len() == 0 {
        0
    } else {
        utf8_len(s.drop_last()) + utf8_width(s.last())
    }
}

proof fn lemma_utf8_len_bound(s: Seq<char>)
    ensures
        utf8_len(s) <= 4 * s.len(),
    decreases s.len(),
{
    if s.len() > 0 {
        lemma_utf8_len_bound(s.drop_last());
    }
}

/// The UTF-8 length of a string.
pub fn utf8_length(s: &str) -> (r: u64)
    requires
        4 * s@.len() <= u64::MAX,
    ensures
        r as nat == utf8_len(s@),
{
    let cs = chars_of(s);
    let mut n: u64 = 0;
    for i in 0..cs.len()
        invariant
            cs@ == s@,
            4 * s@.len() <= u64::MAX,
            n as nat == utf8_len(s@.take(i as int)),
    {
        proof {
            assert(s@.take(i + 1).drop_last() =~= s@.take(i as int));
            lemma_utf8_len_bound(s@.take(i as int));
        }
        let c = cs[i];
        let w: u64 = if (c as u32) < 0x80 { 1 } else if (c as u32) < 0x800 { 2 } else if (c as u32) < 0x10000 { 3 } else { 4 };
        n = n + w;
    }
    assert(s@.take(cs.len() as int) =~= s@);
    n
}

/// The `User-Agent` of bridge requests.
pub open spec fn user_agent() -> Seq<char> {
    "tetherscript-browser-cap/0.1"@
}

/// The HTTP request that posts `body` as JSON to a bridge target.
pub open spec fn request_text_spec(target: Seq<char>, host_header: Seq<char>, body: Seq<char>) -> Seq<char> {
    "POST "@ + target + " HTTP/1.1\r\nHost: "@ + host_header + "\r\nUser-Agent: "@ + user_agent()
        + "\r\nContent-Type: application/json\r\nAccept: application/json\r\nConnection: close\r\nContent-Length: "@
        + nat_digits(utf8_len(body)) + "\r\n\r\n"@ + body
}

/// Builds the request text for a bridge URL.
pub fn request_text(url: &BridgeUrl, body: &str) -> (r: String)
    requires
        4 * body@.len() <= u64::MAX,
    ensures
        r@ == request_text_spec(url.target@, url.host_header@, body@),
{
    let mut r = String::from_str("POST ");
    r.append(url.target.as_str());
    r.append(" HTTP/1.1\r\nHost: ");
    r.append(url.host_header.as_str());
    r.append("\r\nUser-Agent: ");
    r.append("tetherscript-browser-cap/0.1");
    r.append("\r\nContent-Type: application/json\r\nAccept: application/json\r\nConnection: close\r\nContent-Length: ");
    let n = utf8_length(body);
    r.append(u64_text(n).as_str());
    r.append("\r\n\r\n");
    r.append(body);
    r
}

/// Whether a reply body is blank (only whitespace); a blank reply reads as nil.
pub fn blank_reply(text: &str) -> (r: bool)
    ensures
        r == (trim(text@).len() == 0),
{
    str_trim(text).unicode_len() == 0
}

} // verus!

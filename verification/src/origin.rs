//! Parsing of the URLs that the browser capability checks: page URLs, whose
//! origin (`scheme://host[:port]`) is matched against the allowed set, and
//! the `http://` bridge endpoint that calls are posted to.

use vstd::prelude::*;

use crate::text::{
    all_ascii_digits, chars_of, contains, digits_value, find, find_char, first_occ, first_pos,
    has_char, lemma_first_occ_unique, lemma_first_unique, lower, nat_digits, parse_u16_digits,
    push_char, rsplit_once, rsplit_once_chars, starts_with, str_starts_with, string_from, substring,
    to_ascii_lowercase, trim_end_char, trim_end_matches_char, u64_text,
};

verus! {

/// A page URL split for origin checks.
#[derive(Debug)]
pub struct ParsedUrl {
    pub scheme: String,
    pub host: String,
    pub port: Option<u16>,
    pub path: String,
}

/// Mathematical value of a [`ParsedUrl`].
pub struct ParsedUrlV {
    pub scheme: Seq<char>,
    pub host: Seq<char>,
    pub port: Option<nat>,
    pub path: Seq<char>,
}

impl ParsedUrl {
    pub open spec fn view_v(&self) -> ParsedUrlV {
        ParsedUrlV {
            scheme: self.scheme@,
            host: self.host@,
            port: match self.port {
                Some(p) => Some(p as nat),
                None => None,
            },
            path: self.path@,
        }
    }
}

/// How a host and port split: at the last `:` when all that follows is
/// digits; the port is then `Some(digits)`.
pub open spec fn host_port(authority: Seq<char>) -> (Seq<char>, Option<Seq<char>>) {
    match rsplit_once(authority, ':') {
        Some((h, p)) => if all_ascii_digits(p) {
            (h, Some(p))
        } else {
            (authority, None)
        },
        None => (authority, None),
    }
}

/// Whether a digit string is a valid `u16` port.
pub open spec fn port_ok(p: Seq<char>) -> bool {
    p.len() > 0 && digits_value(p) <= u16::MAX as nat
}

/// `scheme://authority/path`, with the scheme and host lower-cased, and the
/// path `/` where none is given. Only `http` and `https` are accepted.
pub open spec fn parse_url_spec(url: Seq<char>) -> Result<ParsedUrlV, Seq<char>> {
    if !contains(url, "://"@) {
        Err("browser: url `"@ + url + "` has no scheme"@)
    } else {
        let i = first_occ(url, "://"@);
        let scheme = lower(url.take(i));
        let rest = url.skip(i + 3);
        if scheme != "http"@ && scheme != "https"@ {
            Err("browser: unsupported url scheme `"@ + scheme + "`"@)
        } else {
            let authority = if has_char(rest, '/') { rest.take(first_pos(rest, '/')) } else { rest };
            let path = if has_char(rest, '/') { rest.skip(first_pos(rest, '/')) } else { "/"@ };
            let (h, p) = host_port(authority);
            match p {
                Some(digits) => if port_ok(digits) {
                    Ok(ParsedUrlV { scheme, host: lower(h), port: Some(digits_value(digits)), path })
                } else {
                    Err("browser: bad port"@)
                },
                None => Ok(ParsedUrlV { scheme, host: lower(h), port: None, path }),
            }
        }
    }
}

/// Splits an authority at its port, as [`host_port`] says.
fn split_host_port(authority: &[char]) -> (r: (String, Option<String>))
    ensures
        r.0@ == host_port(authority@).0,
        (r.1 matches Some(p) ==> host_port(authority@).1 == Some(p@)),
        r.1 is None ==> host_port(authority@).1 is None,
{
    match rsplit_once_chars(authority, ':') {
        Some((h, p)) => {
            let pc = chars_of(p.as_str());
            let mut k: usize = 0;
            while k < pc.len()
                invariant
                    k <= pc@.len(),
                    pc@ == p@,
                    rsplit_once(authority@, ':') == Some((h@, p@)),
                    all_ascii_digits(pc@.take(k as int)),
                decreases pc.len() - k,
            {
                if !('0' <= pc[k] && pc[k] <= '9') {
                    assert(!('0' <= p@[k as int] <= '9'));
                    assert(!all_ascii_digits(p@));
                    return (string_from(authority), None);
                }
                assert(pc@.take(k + 1)[k as int] == pc@[k as int]);
                assert(forall|j: int| 0 <= j < k ==> pc@.take(k + 1)[j] == pc@.take(k as int)[j]);
                k = k + 1;
            }
            assert(pc@.take(pc@.len() as int) =~= pc@);
            (h, Some(p))
        },
        None => (string_from(authority), None),
    }
}

impl ParsedUrl {
    /// Splits a page URL for origin checks.
    pub fn parse(url: &str) -> (r: Result<ParsedUrl, String>)
        ensures
            (r matches Ok(p) ==> parse_url_spec(url@) == Ok::<ParsedUrlV, Seq<char>>(p.view_v())),
            (r matches Err(e) ==> parse_url_spec(url@) == Err::<ParsedUrlV, Seq<char>>(e@)),
    {
        let cs = chars_of(url);
        let sep = chars_of("://");
        match find(&cs, &sep) {
            None => {
                let mut e = String::from_str("browser: url `");
                e.append(url);
                e.append("` has no scheme");
                Err(e)
            },
            Some(i) => {
                proof {
                    lemma_first_occ_unique(url@, "://"@, i as int);
                    reveal_strlit("://");
                }
                assert(i + 3 <= cs.len());
                let raw_scheme = substring(&cs, 0, i);
                assert(cs@.subrange(0, i as int) =~= url@.take(i as int));
                let scheme = to_ascii_lowercase(raw_scheme.as_str());
                if !(scheme == String::from_str("http")) && !(scheme == String::from_str("https")) {
                    let mut e = String::from_str("browser: unsupported url scheme `");
                    e.append(scheme.as_str());
                    e.append("`");
                    return Err(e);
                }
                let rest = chars_of(substring(&cs, i + 3, cs.len()).as_str());
                assert(cs@.subrange(i + 3, cs@.len() as int) =~= url@.skip(i + 3));
                let (authority, path) = match find_char(&rest, '/') {
                    Some(j) => {
                        proof {
                            lemma_first_unique(rest@, '/', j as int);
                        }
                        assert(rest@.subrange(0, j as int) =~= rest@.take(j as int));
                        assert(rest@.subrange(j as int, rest@.len() as int) =~= rest@.skip(j as int));
                        (substring(&rest, 0, j), substring(&rest, j, rest.len()))
                    },
                    None => {
                        assert(!has_char(rest@, '/'));
                        (string_from(&rest), String::from_str("/"))
                    },
                };
                let ac = chars_of(authority.as_str());
                let (h, p) = split_host_port(&ac);
                let host = to_ascii_lowercase(h.as_str());
                match p {
                    Some(digits) => {
                        let dc = chars_of(digits.as_str());
                        match parse_u16_digits(&dc) {
                            Some(n) => Ok(ParsedUrl { scheme, host, port: Some(n), path }),
                            None => Err(String::from_str("browser: bad port")),
                        }
                    },
                    None => Ok(ParsedUrl { scheme, host, port: None, path }),
                }
            },
        }
    }

    /// `scheme://host`, with `:port` where a port was given.
    pub fn origin(&self) -> (r: String)
        ensures
            r@ == origin_spec(self.view_v()),
    {
        let mut r = self.scheme.clone();
        r.append("://");
        r.append(self.host.as_str());
        match self.port {
            Some(p) => {
                push_char(&mut r, ':');
                let d = u64_text(p as u64);
                r.append(d.as_str());
            },
            None => {},
        }
        r
    }
}

pub open spec fn origin_spec(p: ParsedUrlV) -> Seq<char> {
    match p.port {
        Some(n) => p.scheme + "://"@ + p.host + seq![':'] + nat_digits(n),
        None => p.scheme + "://"@ + p.host,
    }
}

/// The origin of `s` without trailing slashes, or `s` itself where it does
/// not parse.
pub open spec fn normalize_origin_spec(s: Seq<char>) -> Seq<char> {
    match parse_url_spec(trim_end_char(s, '/')) {
        Ok(p) => origin_spec(p),
        Err(_) => s,
    }
}

/// Reduces an allowed-origin entry to its origin.
pub fn normalize_origin(s: String) -> (r: String)
    ensures
        r@ == normalize_origin_spec(s@),
{
    let t = trim_end_matches_char(s.as_str(), '/');
    match ParsedUrl::parse(t.as_str()) {
        Ok(p) => p.origin(),
        Err(_) => s,
    }
}


/// Where a bridge endpoint's authority ends: at the first `/` or `?`.
pub open spec fn authority_end(s: Seq<char>) -> nat
    decreases s.len(),
{
    if s.len() == 0 || s[0] == '/' || s[0] == '?' {
        0
    } else {
        1 + authority_end(s.drop_first())
    }
}

proof fn lemma_authority_end(s: Seq<char>, i: int)
    requires
        0 <= i <= s.len(),
        forall|j: int| 0 <= j < i ==> s[j] != '/' && s[j] != '?',
        i == s.len() || s[i] == '/' || s[i] == '?',
    ensures
        authority_end(s) == i,
    decreases i,
{
    if i > 0 {
        assert forall|j: int| 0 <= j < i - 1 implies s.drop_first()[j] != '/' && s.drop_first()[j] != '?' by {
            assert(s.drop_first()[j] == s[j + 1]);
        }
        lemma_authority_end(s.drop_first(), i - 1);
    }
}

/// The parts of a bridge endpoint that a request needs.
#[derive(Debug)]
pub struct BridgeUrl {
    pub host: String,
    pub port: u16,
    pub host_header: String,
    pub target: String,
}

/// Mathematical value of a [`BridgeUrl`].
pub struct BridgeUrlV {
    pub host: Seq<char>,
    pub port: nat,
    pub host_header: Seq<char>,
    pub target: Seq<char>,
}

impl BridgeUrl {
    pub open spec fn view_v(&self) -> BridgeUrlV {
        BridgeUrlV {
            host: self.host@,
            port: self.port as nat,
            host_header: self.host_header@,
            target: self.target@,
        }
    }
}

/// The request parts for a host, port and the text after the authority:
/// the `Host` header leaves out port 80, and the target is at least `/`.
pub open spec fn bridge_parts(host: Seq<char>, port: nat, suffix: Seq<char>) -> BridgeUrlV {
    BridgeUrlV {
        host,
        port,
        host_header: if port == 80 { host } else { host + seq![':'] + nat_digits(port) },
        target: if suffix.len() == 0 {
            "/"@
        } else if suffix[0] == '?' {
            seq!['/'] + suffix
        } else {
            suffix
        },
    }
}

/// `http://host[:port][/path][?query]`; the port is 80 where none is given.
pub open spec fn bridge_url_spec(input: Seq<char>) -> Result<BridgeUrlV, Seq<char>> {
    if !starts_with(input, "http://"@) {
        Err("browser bridge endpoint must be http:// in std-only MVP"@)
    } else {
        let rest = input.skip(7);
        let k = authority_end(rest) as int;
        let authority = rest.take(k);
        let suffix = rest.skip(k);
        if authority.len() == 0 {
            Err("browser bridge URL missing host"@)
        } else {
            let (h, p) = host_port(authority);
            match p {
                Some(d) => if port_ok(d) {
                    Ok(bridge_parts(h, digits_value(d), suffix))
                } else {
                    Err("browser bridge bad port"@)
                },
                None => Ok(bridge_parts(h, 80, suffix)),
            }
        }
    }
}

impl BridgeUrl {
    /// Splits a bridge endpoint URL into what a request needs.
    pub fn parse(input: &str) -> (r: Result<BridgeUrl, String>)
        ensures
            (r matches Ok(b) ==> bridge_url_spec(input@) == Ok::<BridgeUrlV, Seq<char>>(b.view_v())),
            (r matches Err(e) ==> bridge_url_spec(input@) == Err::<BridgeUrlV, Seq<char>>(e@)),
    {
        proof {
            reveal_strlit("http://");
            reveal_strlit("/");
        }
        if !str_starts_with(input, "http://") {
            return Err(String::from_str("browser bridge endpoint must be http:// in std-only MVP"));
        }
        let cs = chars_of(input);
        let rest = chars_of(substring(&cs, 7, cs.len()).as_str());
        assert(cs@.subrange(7, cs@.len() as int) =~= input@.skip(7));
        let mut k: usize = 0;
        while k < rest.len() && rest[k] != '/' && rest[k] != '?'
            invariant
                k <= rest@.len(),
                forall|j: int| 0 <= j < k ==> rest@[j] != '/' && rest@[j] != '?',
            decreases rest.len() - k,
        {
            k = k + 1;
        }
        proof {
            lemma_authority_end(rest@, k as int);
        }
        if k == 0 {
            assert(rest@.take(0).len() == 0);
            return Err(String::from_str("browser bridge URL missing host"));
        }
        let authority = substring(&rest, 0, k);
        let suffix = substring(&rest, k, rest.len());
        assert(rest@.subrange(0, k as int) =~= rest@.take(k as int));
        assert(rest@.subrange(k as int, rest@.len() as int) =~= rest@.skip(k as int));
        let ac = chars_of(authority.as_str());
        let (host, p) = split_host_port(&ac);
        let port: u16 = match p {
            Some(digits) => {
                let dc = chars_of(digits.as_str());
                match parse_u16_digits(&dc) {
                    Some(n) => n,
                    None => {
                        return Err(String::from_str("browser bridge bad port"));
                    },
                }
            },
            None => 80,
        };
        let host_header = if port == 80 {
            host.clone()
        } else {
            let mut hh = host.clone();
            push_char(&mut hh, ':');
            let d = u64_text(port as u64);
            hh.append(d.as_str());
            assert(hh@ =~= host@ + seq![':'] + nat_digits(port as nat));
            hh
        };
        let sc = chars_of(suffix.as_str());
        assert(sc@ == suffix@);
        let target = if sc.len() == 0 {
            String::from_str("/")
        } else if sc[0] == '?' {
            let mut t = String::new();
            push_char(&mut t, '/');
            t.append(suffix.as_str());
            assert(t@ =~= seq!['/'] + suffix@);
            t
        } else {
            suffix
        };
        Ok(BridgeUrl { host, port, host_header, target })
    }
}

} // verus!

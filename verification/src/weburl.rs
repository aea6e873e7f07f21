//! URLs as the `url` crate parses them, held as plain strings, and the
//! dotted-decimal IPv4 grammar of `Ipv4Addr::from_str`.
use vstd::prelude::*;
use crate::text::{chars_of, split_char, split_on, ascii_digit, is_ascii_digit};

verus! {

/// The parts of a parsed URL that the library reads.
#[derive(Clone, Debug, PartialEq, Eq)]
pub struct UrlParts {
    /// The whole URL in its serialized form (`Url::as_str`).
    pub serialization: String,
    pub scheme: String,
    pub username: String,
    pub password: Option<String>,
    /// The host as `Url::host_str` gives it; an IPv6 host keeps its brackets.
    pub host: Option<String>,
    pub query: Option<String>,
    pub fragment: Option<String>,
}

pub struct UrlPartsView {
    pub serialization: Seq<char>,
    pub scheme: Seq<char>,
    pub username: Seq<char>,
    pub password: Option<Seq<char>>,
    pub host: Option<Seq<char>>,
    pub query: Option<Seq<char>>,
    pub fragment: Option<Seq<char>>,
}

pub open spec fn opt_view(o: Option<String>) -> Option<Seq<char>> {
    match o {
        Some(s) => Some(s@),
        None => None,
    }
}

impl View for UrlParts {
    type V = UrlPartsView;

    open spec fn view(&self) -> UrlPartsView {
        UrlPartsView {
            serialization: self.serialization@,
            scheme: self.scheme@,
            username: self.username@,
            password: opt_view(self.password),
            host: opt_view(self.host),
            query: opt_view(self.query),
            fragment: opt_view(self.fragment),
        }
    }
}

/// What `url::Url::parse` gives for a text: the URL's parts, or the text of
/// its parse error.
pub uninterp spec fn url_parse(raw: Seq<char>) -> Result<UrlPartsView, Seq<char>>;

pub open spec fn url_result_view(r: Result<UrlParts, String>) -> Result<UrlPartsView, Seq<char>> {
    match r {
        Ok(u) => Ok(u@),
        Err(e) => Err(e@),
    }
}

/// A host as the `url` crate renders it: a `:` only occurs in the bracketed
/// form of an IPv6 address (domains and opaque hosts refuse `:`).
pub open spec fn host_shape_ok(host: Seq<char>) -> bool {
    forall|i: int| 0 <= i < host.len() && #[trigger] host[i] == ':' ==> host[0] == '['
}

pub open spec fn url_shape_ok(u: UrlPartsView) -> bool {
    match u.host {
        Some(h) => host_shape_ok(h),
        None => true,
    }
}

/// Parses `raw` with `url::Url::parse` and takes its parts apart.
///
/// Trusted: the result is what `Url::parse` gives for `raw` (named by
/// `url_parse`), and a parsed host holds `:` only inside the brackets of an
/// IPv6 address, as the crate's host parser (`Host::parse_cow`, the `URL`
/// deny list of `idna`, and the opaque-host check) shows.
#[verifier::external_body]
pub(crate) fn parse_url(raw: &str) -> (r: Result<UrlParts, String>)
    ensures
        url_result_view(r) == url_parse(raw@),
        r matches Ok(u) ==> url_shape_ok(u@),
{
    match url::Url::parse(raw) {
        Ok(u) => Ok(UrlParts {
            serialization: u.as_str().to_string(),
            scheme: u.scheme().to_string(),
            username: u.username().to_string(),
            password: u.password().map(String::from),
            host: u.host_str().map(String::from),
            query: u.query().map(String::from),
            fragment: u.fragment().map(String::from),
        }),
        Err(e) => Err(e.to_string()),
    }
}

// ---------------------------------------------------------------------------
// Dotted-decimal IPv4 (`Ipv4Addr::from_str`): four parts split on `.`, each of
// one to three ASCII digits, no leading zero but for `0` itself, at most 255.
pub open spec fn digits_value(s: Seq<char>) -> int
    decreases s.len(),
{
    if s.len() == 0 {
        0
    } else {
        digits_value(s.drop_last()) * 10 + (s.last() as int - '0' as int)
    }
}

pub open spec fn is_ipv4_octet(s: Seq<char>) -> bool {
    &&& 1 <= s.len() <= 3
    &&& forall|i: int| 0 <= i < s.len() ==> is_ascii_digit(#[trigger] s[i])
    &&& (s.len() == 1 || s[0] != '0')
    &&& digits_value(s) <= 255
}

/// The four octets of a dotted-decimal IPv4 address, or `None`.
pub open spec fn ipv4_octets(host: Seq<char>) -> Option<Seq<int>> {
    let parts = split_on(host, '.');
    if parts.len() == 4 && forall|i: int| 0 <= i < 4 ==> is_ipv4_octet(#[trigger] parts[i]) {
        Some(parts.map_values(|p: Seq<char>| digits_value(p)))
    } else {
        None
    }
}

fn parse_octet(s: &str) -> (r: Option<u8>)
    ensures
        match r {
            Some(b) => is_ipv4_octet(s@) && b as int == digits_value(s@),
            None => !is_ipv4_octet(s@),
        },
{
    let v = chars_of(s);
    if v.len() < 1 || v.len() > 3 {
        return None;
    }
    if v.len() > 1 && v[0] == '0' {
        return None;
    }
    let mut value: u32 = 0;
    let mut i: usize = 0;
    while i < v.len()
        invariant
            v@ == s@,
            1 <= v@.len() <= 3,
            i <= v@.len(),
            forall|j: int| 0 <= j < i ==> is_ascii_digit(#[trigger] v@[j]),
            value as int == digits_value(v@.subrange(0, i as int)),
            i == 0 ==> value == 0,
            i == 1 ==> value < 10,
            i == 2 ==> value < 100,
            i == 3 ==> value < 1000,
        decreases v@.len() - i,
    {
        let c = v[i];
        if !ascii_digit(c) {
            return None;
        }
        assert(v@.subrange(0, i + 1).drop_last() =~= v@.subrange(0, i as int));
        let d: u32 = (c as u32) - ('0' as u32);
        value = value * 10 + d;
        i = i + 1;
    }
    assert(v@.subrange(0, v@.len() as int) =~= v@);
    if value > 255 {
        return None;
    }
    Some(value as u8)
}

/// `Ipv4Addr::from_str`: the octets of a dotted-decimal address.
pub fn parse_ipv4(s: &str) -> (r: Option<(u8, u8, u8, u8)>)
    ensures
        match r {
            Some((a, b, c, d)) => ipv4_octets(s@) == Some(seq![a as int, b as int, c as int, d as int]),
            None => ipv4_octets(s@) is None,
        },
{
    let parts = split_char(s, '.');
    let ghost w = parts@.map_values(|x: String| x@);
    if parts.len() != 4 {
        return None;
    }
    assert(w[0] == parts@[0]@ && w[1] == parts@[1]@ && w[2] == parts@[2]@ && w[3] == parts@[3]@);
    let a = match parse_octet(parts[0].as_str()) {
        Some(x) => x,
        None => {
            return None;
        },
    };
    let b = match parse_octet(parts[1].as_str()) {
        Some(x) => x,
        None => {
            return None;
        },
    };
    let c = match parse_octet(parts[2].as_str()) {
        Some(x) => x,
        None => {
            return None;
        },
    };
    let d = match parse_octet(parts[3].as_str()) {
        Some(x) => x,
        None => {
            return None;
        },
    };
    proof {
        assert forall|i: int| 0 <= i < 4 implies is_ipv4_octet(#[trigger] w[i]) by {
            if i == 0 {
            } else if i == 1 {
            } else if i == 2 {
            } else {
            }
        }
        assert(w.map_values(|p: Seq<char>| digits_value(p)) =~= seq![
            a as int,
            b as int,
            c as int,
            d as int,
        ]);
    }
    Some((a, b, c, d))
}

} // verus!

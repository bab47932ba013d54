//! Validation of the WELIST server URL that statistics reports are sent to,
//! refusing anything that could reach the machine itself or a private network.

use vstd::prelude::*;
use crate::text::{chars_eq_ignore_ascii_case, chars_of, eq_ignore_ascii_case, str_eq};

verus! {

/// The host of a parsed URL, as `url::Host` gives it.
pub enum UrlHost {
    /// A domain name (ASCII, lowercase, punycode for special schemes).
    Domain(String),
    /// An IPv4 address, most significant octet first.
    Ipv4(u32),
    /// An IPv6 address, most significant segment first.
    Ipv6(u128),
}

/// The parts of a parsed URL that the validation reads.
pub struct ParsedUrl {
    /// The scheme, lowercase, without `:`.
    pub scheme: String,
    /// The host, if the URL has one.
    pub host: Option<UrlHost>,
}

/// Mathematical view of a `UrlHost`.
pub enum UrlHostView {
    Domain(Seq<char>),
    Ipv4(u32),
    Ipv6(u128),
}

/// Mathematical view of a `ParsedUrl`.
pub struct ParsedUrlView {
    pub scheme: Seq<char>,
    pub host: Option<UrlHostView>,
}

impl View for UrlHost {
    type V = UrlHostView;

    open spec fn view(&self) -> UrlHostView {
        match self {
            UrlHost::Domain(d) => UrlHostView::Domain(d@),
            UrlHost::Ipv4(a) => UrlHostView::Ipv4(*a),
            UrlHost::Ipv6(a) => UrlHostView::Ipv6(*a),
        }
    }
}

impl View for ParsedUrl {
    type V = ParsedUrlView;

    open spec fn view(&self) -> ParsedUrlView {
        ParsedUrlView {
            scheme: self.scheme@,
            host: match self.host {
                Some(h) => Some(h@),
                None => None,
            },
        }
    }
}

/// What `url::Url::parse` makes of a string: its scheme and host, or nothing
/// when the string is not a valid URL.
pub uninterp spec fn parsed_url(input: Seq<char>) -> Option<ParsedUrlView>;

/// Parses a URL with `url::Url::parse` and reads its scheme (`Url::scheme`)
/// and host (`Url::host`), an IP host turned into its integer form. Claims:
/// the result is the named parse of the input.
#[verifier::external_body]
fn parse_url(input: &str) -> (r: Option<ParsedUrl>)
    ensures
        match r {
            Some(p) => parsed_url(input@) == Some(p@),
            None => parsed_url(input@) is None,
        },
{
    let u = url::Url::parse(input).ok()?;
    let host = match u.host() {
        None => None,
        Some(url::Host::Domain(d)) => Some(UrlHost::Domain(d.to_string())),
        Some(url::Host::Ipv4(a)) => Some(UrlHost::Ipv4(u32::from(a))),
        Some(url::Host::Ipv6(a)) => Some(UrlHost::Ipv6(u128::from(a))),
    };
    Some(ParsedUrl { scheme: u.scheme().to_string(), host })
}

/// IPv4 addresses a report must not go to: loopback (127.0.0.0/8), private
/// (10.0.0.0/8, 172.16.0.0/12, 192.168.0.0/16), link-local (169.254.0.0/16),
/// unspecified (0.0.0.0) and multicast (224.0.0.0/4).
pub open spec fn ipv4_blocked(a: u32) -> bool {
    let o0 = a >> 24u32;
    let o1 = (a >> 16u32) & 0xffu32;
    ||| o0 == 127
    ||| o0 == 10
    ||| (o0 == 172 && (o1 & 0xf0u32) == 16)
    ||| (o0 == 192 && o1 == 168)
    ||| (o0 == 169 && o1 == 254)
    ||| a == 0
    ||| (o0 & 0xf0u32) == 224
}

/// IPv6 addresses a report must not go to: loopback (::1), unicast
/// link-local (fe80::/10), unspecified (::), multicast (ff00::/8), unique
/// local (fc00::/7), and an IPv4-mapped address (`::ffff:a.b.c.d`) whose
/// IPv4 address is blocked.
pub open spec fn ipv6_blocked(a: u128) -> bool {
    let s0 = a >> 112u128;
    ||| ((a >> 32u128) == 0xffffu128 && ipv4_blocked((a & 0xffff_ffffu128) as u32))
    ||| a == 1
    ||| (s0 & 0xffc0u128) == 0xfe80
    ||| a == 0
    ||| (s0 & 0xff00u128) == 0xff00
    ||| (s0 & 0xfe00u128) == 0xfc00
}

/// `s` without its leading `[` characters.
pub open spec fn trim_leading_brackets(s: Seq<char>) -> Seq<char>
    decreases s.len(),
{
    if s.len() > 0 && s[0] == '[' {
        trim_leading_brackets(s.drop_first())
    } else {
        s
    }
}

/// `s` without its trailing `]` characters.
pub open spec fn trim_trailing_brackets(s: Seq<char>) -> Seq<char>
    decreases s.len(),
{
    if s.len() > 0 && s.last() == ']' {
        trim_trailing_brackets(s.drop_last())
    } else {
        s
    }
}

/// Host names that name this machine.
pub open spec fn is_local_name(h: Seq<char>) -> bool {
    eq_ignore_ascii_case(h, "localhost"@) || eq_ignore_ascii_case(h, "127.0.0.1"@)
        || eq_ignore_ascii_case(h, "::1"@)
}

/// Whether a host may receive reports. A domain is refused when, stripped of
/// brackets, it names this machine; an IP address when it falls in a blocked
/// range. (The host text of an IP address names this machine only for the
/// loopback addresses, which the ranges already refuse, and a domain never
/// parses as an IP address: `url` turns a host ending in a number into an
/// IPv4 address and refuses `:` in domains.)
pub open spec fn host_allowed(h: UrlHostView) -> bool {
    match h {
        UrlHostView::Domain(d) => !is_local_name(trim_trailing_brackets(trim_leading_brackets(d))),
        UrlHostView::Ipv4(a) => !ipv4_blocked(a),
        UrlHostView::Ipv6(a) => !ipv6_blocked(a),
    }
}

/// Whether a parsed URL is acceptable as the WELIST server: it parsed, its
/// scheme is `https`, it has a host, and the host is allowed.
pub open spec fn welist_url_ok(p: Option<ParsedUrlView>) -> bool {
    match p {
        None => false,
        Some(u) => u.scheme == "https"@ && match u.host {
            None => false,
            Some(h) => host_allowed(h),
        },
    }
}

fn ipv4_blocked_exec(a: u32) -> (r: bool)
    ensures
        r == ipv4_blocked(a),
{
    let o0 = a >> 24u32;
    let o1 = (a >> 16u32) & 0xffu32;
    o0 == 127 || o0 == 10 || (o0 == 172 && (o1 & 0xf0u32) == 16) || (o0 == 192 && o1 == 168)
        || (o0 == 169 && o1 == 254) || a == 0 || (o0 & 0xf0u32) == 224
}

fn ipv6_blocked_exec(a: u128) -> (r: bool)
    ensures
        r == ipv6_blocked(a),
{
    let s0 = a >> 112u128;
    ((a >> 32u128) == 0xffffu128 && ipv4_blocked_exec((a & 0xffff_ffffu128) as u32)) || a == 1 || (s0 & 0xffc0u128) == 0xfe80 || a == 0 || (s0 & 0xff00u128) == 0xff00 || (s0
        & 0xfe00u128) == 0xfc00
}

/// Strips leading `[` and trailing `]` from a host name.
fn trim_brackets(s: &str) -> (r: Vec<char>)
    ensures
        r@ == trim_trailing_brackets(trim_leading_brackets(s@)),
{
    let v = chars_of(s);
    let mut i: usize = 0;
    assert(v@.subrange(0, v@.len() as int) =~= v@);
    while i < v.len() && v[i] == '['
        invariant
            i <= v@.len(),
            trim_leading_brackets(v@) == trim_leading_brackets(v@.subrange(i as int, v@.len() as int)),
        decreases v@.len() - i,
    {
        assert(v@.subrange(i as int, v@.len() as int).drop_first() =~= v@.subrange(i + 1, v@.len() as int));
        i += 1;
    }
    let ghost lead = v@.subrange(i as int, v@.len() as int);
    assert(trim_leading_brackets(lead) == lead);
    let mut j: usize = v.len();
    while j > i && v[j - 1] == ']'
        invariant
            i <= j <= v@.len(),
            lead == v@.subrange(i as int, v@.len() as int),
            trim_trailing_brackets(lead) == trim_trailing_brackets(v@.subrange(i as int, j as int)),
        decreases j,
    {
        assert(v@.subrange(i as int, j as int).drop_last() =~= v@.subrange(i as int, j - 1));
        j -= 1;
    }
    assert(trim_trailing_brackets(v@.subrange(i as int, j as int)) == v@.subrange(i as int, j as int));
    let mut r: Vec<char> = Vec::new();
    let mut k = i;
    while k < j
        invariant
            i <= k <= j <= v@.len(),
            r@ == v@.subrange(i as int, k as int),
        decreases j - k,
    {
        r.push(v[k]);
        assert(v@.subrange(i as int, k + 1) =~= v@.subrange(i as int, k as int).push(v@[k as int]));
        k += 1;
    }
    r
}

/// Whether a host may receive reports (see `host_allowed`).
pub fn is_allowed_host(h: &UrlHost) -> (r: bool)
    ensures
        r == host_allowed(h@),
{
    match h {
        UrlHost::Domain(d) => {
            let t = trim_brackets(d.as_str());
            !(chars_eq_ignore_ascii_case(&t, "localhost") || chars_eq_ignore_ascii_case(&t, "127.0.0.1")
                || chars_eq_ignore_ascii_case(&t, "::1"))
        },
        UrlHost::Ipv4(a) => !ipv4_blocked_exec(*a),
        UrlHost::Ipv6(a) => !ipv6_blocked_exec(*a),
    }
}

/// The verdict on an already parsed URL (see `welist_url_ok`).
pub fn welist_url_allowed(parsed: &Option<ParsedUrl>) -> (r: bool)
    ensures
        r == welist_url_ok(match parsed {
            Some(p) => Some(p@),
            None => None,
        }),
{
    match parsed {
        None => false,
        Some(u) => {
            if !str_eq(u.scheme.as_str(), "https") {
                return false;
            }
            match &u.host {
                None => false,
                Some(h) => is_allowed_host(h),
            }
        },
    }
}

/// Validates a WELIST server URL to mitigate server-side request forgery:
/// it must parse, use `https`, have a host, and the host must not be
/// `localhost` or a loopback, private, link-local, unspecified, multicast or
/// (IPv6) unique-local address.
pub fn is_valid_welist_url(url_str: &str) -> (r: bool)
    ensures
        r == welist_url_ok(parsed_url(url_str@)),
{
    let parsed = parse_url(url_str);
    welist_url_allowed(&parsed)
}

} // verus!

//! Request targets: authorities, absolute form, origin form and CONNECT.

use crate::addr;
use crate::dns;
use crate::http1::Http1Error;
use crate::notation;
use crate::text;
use vstd::prelude::*;

verus! {

// ---------------------------------------------------------------------
// Authorities
// ---------------------------------------------------------------------

/// A normalized host and a port.
#[derive(Clone, PartialEq, Eq)]
pub struct Authority {
    host: String,
    port: u16,
}

#[verifier::ext_equal]
pub struct AuthorityView {
    pub host: Seq<char>,
    pub port: u16,
}

impl View for Authority {
    type V = AuthorityView;

    closed spec fn view(&self) -> AuthorityView {
        AuthorityView { host: self.host@, port: self.port }
    }
}

pub open spec fn is_authority_char(c: char) -> bool {
    !text::is_control(c) && c != ' ' && c != '@' && c != '/' && c != '?' && c != '#' && c != '\\'
}

pub open spec fn is_authority_text(value: Seq<char>) -> bool {
    value.len() > 0 && forall|i: int| 0 <= i < value.len() ==> is_authority_char(#[trigger] value[i])
}

/// Host and port text: an IPv6 address in brackets, or a host with at most one
/// colon after it.
pub open spec fn split_authority(value: Seq<char>) -> Option<(Seq<char>, Option<Seq<char>>)> {
    if value[0] == '[' {
        let inner = value.drop_first();
        let close = text::find(inner, ']');
        let host = inner.take(close);
        let suffix = inner.skip(close + 1);
        if close == inner.len() || addr::ipv6_of(host) is None {
            None
        } else if suffix.len() == 0 {
            Some((host, None))
        } else if suffix[0] == ':' {
            Some((host, Some(suffix.drop_first())))
        } else {
            None
        }
    } else {
        let colon = text::find(value, ':');
        let rest = value.skip(colon + 1);
        if colon == value.len() {
            Some((value, None))
        } else if rest.contains(':') {
            None
        } else {
            Some((value.take(colon), Some(rest)))
        }
    }
}

/// A decimal port from 1 to 65535.
pub open spec fn port_of(s: Seq<char>) -> Option<u16> {
    if s.len() > 0 && text::all_digits(s) && 0 < text::number(s, 10) <= 65535 {
        Some(text::number(s, 10) as u16)
    } else {
        None
    }
}

pub open spec fn is_numeric_host(s: Seq<char>) -> bool {
    forall|i: int| 0 <= i < s.len() ==> text::is_digit(#[trigger] s[i]) || s[i] == '.'
}

/// Lowercase ASCII without one terminal root dot.
pub open spec fn rootless(ascii: Seq<char>) -> Seq<char> {
    dns::without_root(text::lower(ascii))
}

/// The canonical name for an ASCII form, where it is a DNS name.
pub open spec fn canonical_name(ascii: Seq<char>) -> Option<Seq<char>> {
    if dns::is_dns_name(rootless(ascii)) {
        Some(rootless(ascii))
    } else {
        None
    }
}

/// The canonical host, given the ASCII form of its name: addresses in their
/// canonical text, names in lower case; other dotted numbers are refused.
pub open spec fn canonical_host(host: Seq<char>, ascii: Option<Seq<char>>) -> Option<Seq<char>> {
    if addr::ipv6_of(host) is Some {
        Some(addr::ipv6_text(addr::ipv6_of(host)->0))
    } else if addr::ipv4_of(host) is Some {
        Some(addr::ipv4_text(addr::ipv4_of(host)->0))
    } else if is_numeric_host(host) {
        None
    } else {
        match ascii {
            Some(a) => canonical_name(a),
            None => None,
        }
    }
}

pub open spec fn normalized_host(host: Seq<char>) -> Option<Seq<char>> {
    canonical_host(host, dns::idna_ascii(vstd::utf8::encode_utf8(host)))
}

/// Whether a host is its own canonical form.
pub open spec fn is_canonical(host: Seq<char>) -> bool {
    normalized_host(host) == Some(host)
}

/// The authority that the text denotes; without a port in it, the default one,
/// unless an explicit port is required.
pub open spec fn authority_of(
    value: Seq<char>,
    default_port: Option<u16>,
    require_explicit_port: bool,
) -> Option<AuthorityView> {
    if !is_authority_text(value) || split_authority(value) is None {
        None
    } else {
        let (host, port_text) = split_authority(value)->0;
        let port = match port_text {
            Some(t) => port_of(t),
            None => if require_explicit_port {
                None
            } else {
                default_port
            },
        };
        match (port, normalized_host(host)) {
            (Some(p), Some(h)) => if host.len() == 0 {
                None
            } else {
                Some(AuthorityView { host: h, port: p })
            },
            _ => None,
        }
    }
}

fn check_authority_text(value: &[char]) -> (r: bool)
    ensures
        r == is_authority_text(value@),
{
    if value.len() == 0 {
        return false;
    }
    let mut i: usize = 0;
    while i < value.len()
        invariant
            i <= value@.len(),
            forall|j: int| 0 <= j < i ==> is_authority_char(#[trigger] value@[j]),
        decreases value.len() - i,
    {
        let c = value[i];
        if text::char_is_control(c) || c == ' ' || c == '@' || c == '/' || c == '?' || c == '#' || c
            == '\\' {
            assert(!is_authority_char(value@[i as int]));
            return false;
        }
        i += 1;
    }
    true
}

fn cut_authority(value: &[char]) -> (r: Option<(Vec<char>, Option<Vec<char>>)>)
    requires
        value@.len() > 0,
    ensures
        match (r, split_authority(value@)) {
            (Some((h, p)), Some((hv, pv))) => h@ == hv && match (p, pv) {
                (Some(a), Some(b)) => a@ == b,
                (None, None) => true,
                _ => false,
            },
            (None, None) => true,
            _ => false,
        },
{
    if value[0] == '[' {
        let inner = text::chars_between(value, 1, value.len());
        assert(inner@ == value@.drop_first());
        let close: usize = text::find_char(inner.as_slice(), ']');
        if close == inner.len() {
            return None;
        }
        let host = text::chars_between(inner.as_slice(), 0, close);
        let suffix = text::chars_between(inner.as_slice(), close + 1, inner.len());
        assert(host@ == inner@.take(close as int));
        assert(suffix@ == inner@.skip(close as int + 1));
        if addr::parse_ipv6(host.as_slice()).is_none() {
            return None;
        }
        if suffix.len() == 0 {
            Some((host, None))
        } else if suffix[0] == ':' {
            let port = text::chars_between(suffix.as_slice(), 1, suffix.len());
            assert(port@ == suffix@.drop_first());
            Some((host, Some(port)))
        } else {
            None
        }
    } else {
        let colon: usize = text::find_char(value, ':');
        if colon == value.len() {
            let host = text::chars_between(value, 0, value.len());
            assert(host@ == value@);
            return Some((host, None));
        }
        let host = text::chars_between(value, 0, colon);
        let rest = text::chars_between(value, colon + 1, value.len());
        assert(host@ == value@.take(colon as int));
        assert(rest@ == value@.skip(colon as int + 1));
        if text::contains_char(rest.as_slice(), ':') {
            None
        } else {
            Some((host, Some(rest)))
        }
    }
}

fn parse_port(s: &[char]) -> (r: Option<u16>)
    ensures
        r == port_of(s@),
{
    if s.len() == 0 || !text::are_digits(s) {
        return None;
    }
    match text::parse_number(s, 10) {
        Some(n) => if 0 < n && n <= 65535 {
            Some(n as u16)
        } else {
            None
        },
        None => None,
    }
}

fn check_numeric_host(s: &[char]) -> (r: bool)
    ensures
        r == is_numeric_host(s@),
{
    let mut i: usize = 0;
    while i < s.len()
        invariant
            i <= s@.len(),
            forall|j: int| 0 <= j < i ==> text::is_digit(#[trigger] s@[j]) || s@[j] == '.',
        decreases s.len() - i,
    {
        if !text::char_is_digit(s[i]) && s[i] != '.' {
            return false;
        }
        i += 1;
    }
    true
}

/// The canonical name for an ASCII form: lower case, without one terminal dot,
/// with valid labels only.
pub fn canonicalize_name(ascii: &str) -> (r: Result<String, Http1Error>)
    ensures
        match (r, canonical_name(ascii@)) {
            (Ok(s), Some(v)) => s@ == v,
            (Err(e), None) => e == Http1Error::InvalidAuthority,
            _ => false,
        },
{
    let chars = text::to_chars(ascii);
    let mut low = text::lower_chars(chars.as_slice());
    if low.len() > 0 && low[low.len() - 1] == '.' {
        let _ = low.pop();
    }
    assert(low@ == rootless(ascii@));
    if dns::validate_ascii_dns_name(low.as_slice()) {
        Ok(text::from_chars(low.as_slice()))
    } else {
        Err(Http1Error::InvalidAuthority)
    }
}

/// The canonical form of a host.
pub fn normalize_host(host: &str) -> (r: Result<String, Http1Error>)
    ensures
        match (r, normalized_host(host@)) {
            (Ok(s), Some(v)) => s@ == v,
            (Err(e), None) => e == Http1Error::InvalidAuthority,
            _ => false,
        },
        vstd::utf8::is_ascii_chars(host@) ==> (r matches Ok(s) ==> is_canonical(s@)),
{
    let chars = text::to_chars(host);
    match addr::parse_ipv6(chars.as_slice()) {
        Some(a) => {
            let t = a.to_chars();
            proof {
                notation::ipv6_addresses_are_read_back(a);
            }
            return Ok(text::from_chars(t.as_slice()));
        },
        None => {},
    }
    match addr::parse_ipv4(chars.as_slice()) {
        Some(a) => {
            let t = a.to_chars();
            proof {
                lemma_ipv4_is_no_ipv6(a);
            }
            return Ok(text::from_chars(t.as_slice()));
        },
        None => {},
    }
    if check_numeric_host(chars.as_slice()) {
        return Err(Http1Error::InvalidAuthority);
    }
    match dns::domain_to_ascii(host.as_bytes()) {
        Some(ascii) => {
            proof {
                if vstd::utf8::is_ascii_chars(host@) {
                    vstd::utf8::is_ascii_chars_encode_utf8(host@);
                    assert(text::ascii_chars(vstd::utf8::encode_utf8(host@)) =~= host@);
                    if canonical_name(ascii@) is Some {
                        lemma_name_is_canonical(host@, ascii@);
                    }
                }
            }
            canonicalize_name(ascii.as_str())
        },
        None => Err(Http1Error::InvalidAuthority),
    }
}

/// The text of an IPv4 address is read as nothing else.
proof fn lemma_ipv4_is_no_ipv6(a: addr::Ipv4Addr)
    ensures
        addr::ipv6_of(addr::ipv4_text(a)) is None,
        addr::ipv4_of(addr::ipv4_text(a)) == Some(a),
{
    let s = addr::ipv4_text(a);
    notation::ipv4_addresses_are_read_back(a);
    notation::lemma_ipv4_chars(s);
    if addr::ipv6_of(s) is Some {
        notation::lemma_ipv6_has_colon(s);
        let i = choose|i: int| 0 <= i < s.len() && s[i] == ':';
        assert(text::is_digit(s[i]) || s[i] == '.');
    }
}

/// The canonical name of a host in ASCII is canonical.
proof fn lemma_name_is_canonical(host: Seq<char>, ascii: Seq<char>)
    requires
        !is_numeric_host(host),
        ascii == text::lower(host),
        dns::idna_ascii(vstd::utf8::encode_utf8(dns::without_root(ascii))) == Some(
            dns::without_root(ascii),
        ),
        canonical_name(ascii) is Some,
    ensures
        is_canonical(rootless(ascii)),
{
    let name = rootless(ascii);
    text::lower_is_idempotent(host);
    assert(name == dns::without_root(ascii));
    dns::lemma_name_chars(name);
    assert(text::lower(name) =~= name) by {
        assert forall|i: int| 0 <= i < name.len() implies text::lower(name)[i] == name[i] by {
            assert(name[i] == text::lower(ascii)[i]);
        }
    }
    let labels = text::split(name, '.');
    if name.last() == '.' {
        text::lemma_split_nonempty(name.drop_last(), '.');
        assert(dns::is_label(labels[labels.len() - 1]));
    }
    assert(rootless(name) == name);
    let k = choose|k: int| 0 <= k < host.len() && !text::is_digit(#[trigger] host[k]) && host[k] != '.';
    assert(ascii[k] == text::lower_char(host[k]));
    assert(name[k] == ascii[k]);
    assert(!text::is_digit(name[k]) && name[k] != '.');
    if addr::ipv6_of(name) is Some {
        notation::lemma_ipv6_has_colon(name);
        let i = choose|i: int| 0 <= i < name.len() && name[i] == ':';
        assert(name[i] == '.' || dns::is_label_char(name[i]));
    }
    if addr::ipv4_of(name) is Some {
        notation::lemma_ipv4_chars(name);
    }
}

/// Parses an authority: a host with an optional port.
pub fn parse_authority(
    value: &str,
    default_port: Option<u16>,
    require_explicit_port: bool,
) -> (r: Result<Authority, Http1Error>)
    ensures
        same_authority(r, authority_of(value@, default_port, require_explicit_port)),
        vstd::utf8::is_ascii_chars(value@) ==> (r matches Ok(a) ==> is_canonical(a@.host)),
{
    let chars = text::to_chars(value);
    if !check_authority_text(chars.as_slice()) {
        return Err(Http1Error::InvalidAuthority);
    }
    let (host, port_text) = match cut_authority(chars.as_slice()) {
        Some(parts) => parts,
        None => {
            return Err(Http1Error::InvalidAuthority);
        },
    };
    if host.len() == 0 || (require_explicit_port && port_text.is_none()) {
        return Err(Http1Error::InvalidAuthority);
    }
    let port: u16 = match port_text {
        Some(t) => match parse_port(t.as_slice()) {
            Some(p) => p,
            None => {
                return Err(Http1Error::InvalidAuthority);
            },
        },
        None => match default_port {
            Some(p) => p,
            None => {
                return Err(Http1Error::InvalidAuthority);
            },
        },
    };
    let host = text::from_chars(host.as_slice());
    proof {
        if vstd::utf8::is_ascii_chars(value@) {
            text::lemma_find_bounds(value@, ':');
            text::lemma_find_bounds(value@.drop_first(), ']');
            assert forall|i: int| 0 <= i < host@.len() implies (#[trigger] host@[i] as u32)
                < 0x80 by {
                let k = if value@[0] == '[' {
                    i + 1
                } else {
                    i
                };
                assert(host@[i] == value@[k]);
            }
        }
    }
    match normalize_host(host.as_str()) {
        Ok(h) => Ok(Authority { host: h, port }),
        Err(e) => Err(e),
    }
}

pub open spec fn same_authority(
    r: Result<Authority, Http1Error>,
    v: Option<AuthorityView>,
) -> bool {
    match (r, v) {
        (Ok(a), Some(w)) => a@ == w,
        (Err(e), None) => e == Http1Error::InvalidAuthority,
        _ => false,
    }
}

pub open spec fn host_header_of(a: AuthorityView, default_port: u16) -> Seq<char> {
    let host = if a.host.contains(':') {
        seq!['['] + a.host + seq![']']
    } else {
        a.host
    };
    if a.port == default_port {
        host
    } else {
        host + seq![':'] + text::decimal(a.port as nat)
    }
}

/// Whether the `Host` field of an authority denotes it again, whatever the default
/// port is.
pub open spec fn is_read_back(a: AuthorityView) -> bool {
    forall|default_port: u16|
        authority_of(#[trigger] host_header_of(a, default_port), Some(default_port), false) == Some(
            a,
        )
}

impl Authority {
    /// Parses an authority whose port may be left out. What is written in a `Host`
    /// field of an authority in ASCII is parsed back to it.
    pub fn parse(value: &str, default_port: u16) -> (r: Result<Self, Http1Error>)
        ensures
            same_authority(r, authority_of(value@, Some(default_port), false)),
            vstd::utf8::is_ascii_chars(value@) ==> (r matches Ok(a) ==> a@.port != 0
                ==> is_read_back(a@)),
    {
        let r = parse_authority(value, Some(default_port), false);
        proof {
            if vstd::utf8::is_ascii_chars(value@) && r is Ok && r->Ok_0@.port != 0 {
                host_headers_are_read_back(r->Ok_0@);
            }
        }
        r
    }

    pub fn host(&self) -> (r: &str)
        ensures
            r@ == self@.host,
    {
        self.host.as_str()
    }

    pub fn port(&self) -> (r: u16)
        ensures
            r == self@.port,
    {
        self.port
    }

    /// The value of a `Host` field for this authority.
    pub fn host_header(&self, default_port: u16) -> (r: String)
        ensures
            r@ == host_header_of(self@, default_port),
    {
        let host = text::to_chars(self.host.as_str());
        let mut v: Vec<char> = Vec::new();
        if text::contains_char(host.as_slice(), ':') {
            v.push('[');
            text::push_chars(&mut v, host.as_slice());
            v.push(']');
            assert(v@ == seq!['['] + self@.host + seq![']']);
        } else {
            text::push_chars(&mut v, host.as_slice());
            assert(v@ == self@.host);
        }
        if self.port != default_port {
            let ghost before = v@;
            v.push(':');
            let d = text::digits_of(self.port as u64, 10);
            text::push_chars(&mut v, d.as_slice());
            assert(v@ == before + seq![':'] + text::decimal(self.port as nat));
        }
        text::from_chars(v.as_slice())
    }

    pub fn same(&self, other: &Authority) -> (r: bool)
        ensures
            r == (self@ == other@),
    {
        self.port == other.port && text::same_text(self.host.as_str(), other.host.as_str())
    }

    pub(crate) fn copy(&self) -> (r: Authority)
        ensures
            r@ == self@,
    {
        Authority { host: self.host.clone(), port: self.port }
    }

    /// A diagnostic description that withholds the host.
    pub fn describe(&self) -> (r: String)
        ensures
            r@ == authority_description(self@.port),
    {
        let mut v = text::to_chars("Authority { host: \"<redacted>\", port: ");
        let d = text::digits_of(self.port as u64, 10);
        text::push_chars(&mut v, d.as_slice());
        text::push_str(&mut v, " }");
        text::from_chars(v.as_slice())
    }
}

pub open spec fn authority_description(port: u16) -> Seq<char> {
    "Authority { host: \"<redacted>\", port: "@ + text::decimal(port as nat) + " }"@
}

// ---------------------------------------------------------------------
// Schemes
// ---------------------------------------------------------------------

#[derive(Clone, Copy, Debug, PartialEq, Eq, Structural)]
pub enum Scheme {
    Http,
    Https,
    Ws,
    Wss,
}

impl Scheme {
    pub open spec fn text(self) -> Seq<char> {
        match self {
            Scheme::Http => "http"@,
            Scheme::Https => "https"@,
            Scheme::Ws => "ws"@,
            Scheme::Wss => "wss"@,
        }
    }

    pub open spec fn port(self) -> u16 {
        match self {
            Scheme::Http | Scheme::Ws => 80,
            Scheme::Https | Scheme::Wss => 443,
        }
    }

    pub open spec fn secure(self) -> bool {
        self is Https || self is Wss
    }

    /// How diagnostics name the scheme.
    pub open spec fn label(self) -> Seq<char> {
        match self {
            Scheme::Http => "Http"@,
            Scheme::Https => "Https"@,
            Scheme::Ws => "Ws"@,
            Scheme::Wss => "Wss"@,
        }
    }

    pub fn describe(self) -> (r: &'static str)
        ensures
            r@ == self.label(),
    {
        match self {
            Scheme::Http => "Http",
            Scheme::Https => "Https",
            Scheme::Ws => "Ws",
            Scheme::Wss => "Wss",
        }
    }

    pub fn as_str(self) -> (r: &'static str)
        ensures
            r@ == self.text(),
    {
        match self {
            Scheme::Http => "http",
            Scheme::Https => "https",
            Scheme::Ws => "ws",
            Scheme::Wss => "wss",
        }
    }

    pub fn default_port(self) -> (r: u16)
        ensures
            r == self.port(),
    {
        match self {
            Scheme::Http | Scheme::Ws => 80,
            Scheme::Https | Scheme::Wss => 443,
        }
    }

    pub fn is_secure(self) -> (r: bool)
        ensures
            r == self.secure(),
    {
        match self {
            Scheme::Https | Scheme::Wss => true,
            _ => false,
        }
    }
}

pub open spec fn scheme_of(s: Seq<char>) -> Option<Scheme> {
    if text::eq_ignore_case(s, "http"@) {
        Some(Scheme::Http)
    } else if text::eq_ignore_case(s, "https"@) {
        Some(Scheme::Https)
    } else if text::eq_ignore_case(s, "ws"@) {
        Some(Scheme::Ws)
    } else if text::eq_ignore_case(s, "wss"@) {
        Some(Scheme::Wss)
    } else {
        None
    }
}

fn parse_scheme(s: &[char]) -> (r: Option<Scheme>)
    ensures
        r == scheme_of(s@),
{
    if text::chars_are_ignoring_case(s, "http") {
        Some(Scheme::Http)
    } else if text::chars_are_ignoring_case(s, "https") {
        Some(Scheme::Https)
    } else if text::chars_are_ignoring_case(s, "ws") {
        Some(Scheme::Ws)
    } else if text::chars_are_ignoring_case(s, "wss") {
        Some(Scheme::Wss)
    } else {
        None
    }
}

// ---------------------------------------------------------------------
// Targets
// ---------------------------------------------------------------------

/// A target in absolute form.
#[derive(Clone, PartialEq, Eq)]
pub struct AbsoluteTarget {
    scheme: Scheme,
    authority: Authority,
    path_and_query: String,
}

/// A target in origin form, within a connection to a known authority.
#[derive(Clone, PartialEq, Eq)]
pub struct OriginTarget {
    authority: Authority,
    path_and_query: String,
}

#[derive(Clone, PartialEq, Eq)]
pub enum RequestTarget {
    Absolute(AbsoluteTarget),
    Connect(Authority),
    Origin(OriginTarget),
}

#[verifier::ext_equal]
pub enum RequestTargetView {
    Absolute { scheme: Scheme, authority: AuthorityView, path_and_query: Seq<char> },
    Connect { authority: AuthorityView },
    Origin { authority: AuthorityView, path_and_query: Seq<char> },
}

impl AbsoluteTarget {
    pub closed spec fn scheme_spec(self) -> Scheme {
        self.scheme
    }

    pub closed spec fn authority_spec(self) -> AuthorityView {
        self.authority@
    }

    pub closed spec fn path_spec(self) -> Seq<char> {
        self.path_and_query@
    }

    pub fn scheme(&self) -> (r: Scheme)
        ensures
            r == self.scheme_spec(),
    {
        self.scheme
    }

    pub fn authority(&self) -> (r: &Authority)
        ensures
            r@ == self.authority_spec(),
    {
        &self.authority
    }

    pub fn path_and_query(&self) -> (r: &str)
        ensures
            r@ == self.path_spec(),
    {
        self.path_and_query.as_str()
    }

    /// A diagnostic description that withholds the host and the path.
    pub fn describe(&self) -> (r: String)
        ensures
            r@ == absolute_description(self.scheme_spec(), self.authority_spec().port),
    {
        let mut v = text::to_chars("AbsoluteTarget { scheme: ");
        text::push_str(&mut v, self.scheme.describe());
        text::push_str(&mut v, ", authority: ");
        let a = self.authority.describe();
        text::push_str(&mut v, a.as_str());
        text::push_str(&mut v, ", path_and_query: \"<redacted>\" }");
        text::from_chars(v.as_slice())
    }
}

pub open spec fn absolute_description(scheme: Scheme, port: u16) -> Seq<char> {
    "AbsoluteTarget { scheme: "@ + scheme.label() + ", authority: "@ + authority_description(port)
        + ", path_and_query: \"<redacted>\" }"@
}

pub open spec fn origin_description(port: u16) -> Seq<char> {
    "OriginTarget { authority: "@ + authority_description(port)
        + ", path_and_query: \"<redacted>\" }"@
}

impl OriginTarget {
    pub closed spec fn authority_spec(self) -> AuthorityView {
        self.authority@
    }

    pub closed spec fn path_spec(self) -> Seq<char> {
        self.path_and_query@
    }

    pub fn authority(&self) -> (r: &Authority)
        ensures
            r@ == self.authority_spec(),
    {
        &self.authority
    }

    pub fn path_and_query(&self) -> (r: &str)
        ensures
            r@ == self.path_spec(),
    {
        self.path_and_query.as_str()
    }

    /// A diagnostic description that withholds the host and the path.
    pub fn describe(&self) -> (r: String)
        ensures
            r@ == origin_description(self.authority_spec().port),
    {
        let mut v = text::to_chars("OriginTarget { authority: ");
        let a = self.authority.describe();
        text::push_str(&mut v, a.as_str());
        text::push_str(&mut v, ", path_and_query: \"<redacted>\" }");
        text::from_chars(v.as_slice())
    }
}

impl View for RequestTarget {
    type V = RequestTargetView;

    open spec fn view(&self) -> RequestTargetView {
        match *self {
            RequestTarget::Absolute(t) => RequestTargetView::Absolute {
                scheme: t.scheme_spec(),
                authority: t.authority_spec(),
                path_and_query: t.path_spec(),
            },
            RequestTarget::Connect(a) => RequestTargetView::Connect { authority: a@ },
            RequestTarget::Origin(t) => RequestTargetView::Origin {
                authority: t.authority_spec(),
                path_and_query: t.path_spec(),
            },
        }
    }
}

impl RequestTargetView {
    pub open spec fn authority_spec(self) -> AuthorityView {
        match self {
            RequestTargetView::Absolute { authority, .. } => authority,
            RequestTargetView::Connect { authority } => authority,
            RequestTargetView::Origin { authority, .. } => authority,
        }
    }

    pub open spec fn path_spec(self) -> Option<Seq<char>> {
        match self {
            RequestTargetView::Absolute { path_and_query, .. } => Some(path_and_query),
            RequestTargetView::Connect { .. } => None,
            RequestTargetView::Origin { path_and_query, .. } => Some(path_and_query),
        }
    }
}

impl RequestTarget {
    pub fn authority(&self) -> (r: &Authority)
        ensures
            r@ == self@.authority_spec(),
    {
        match self {
            RequestTarget::Absolute(t) => &t.authority,
            RequestTarget::Connect(a) => a,
            RequestTarget::Origin(t) => &t.authority,
        }
    }

    pub fn path_and_query(&self) -> (r: Option<&str>)
        ensures
            match (r, self@.path_spec()) {
                (Some(s), Some(v)) => s@ == v,
                (None, None) => true,
                _ => false,
            },
    {
        match self {
            RequestTarget::Absolute(t) => Some(t.path_and_query.as_str()),
            RequestTarget::Connect(_) => None,
            RequestTarget::Origin(t) => Some(t.path_and_query.as_str()),
        }
    }

    /// A diagnostic description that withholds the host and the path.
    pub fn describe(&self) -> (r: String)
        ensures
            r@ == match self@ {
                RequestTargetView::Absolute { scheme, authority, .. } => "Absolute("@
                    + absolute_description(scheme, authority.port) + ")"@,
                RequestTargetView::Connect { authority } => "Connect("@ + authority_description(
                    authority.port,
                ) + ")"@,
                RequestTargetView::Origin { authority, .. } => "Origin("@ + origin_description(
                    authority.port,
                ) + ")"@,
            },
    {
        let (label, inner): (&str, String) = match self {
            RequestTarget::Absolute(t) => ("Absolute(", t.describe()),
            RequestTarget::Connect(a) => ("Connect(", a.describe()),
            RequestTarget::Origin(t) => ("Origin(", t.describe()),
        };
        let mut v = text::to_chars(label);
        text::push_str(&mut v, inner.as_str());
        text::push_str(&mut v, ")");
        text::from_chars(v.as_slice())
    }
}

/// Where the first `://` at or after `i` stands.
pub open spec fn scheme_end_from(s: Seq<char>, i: int) -> Option<int>
    decreases s.len() - i,
{
    if i + 3 > s.len() {
        None
    } else if s[i] == ':' && s[i + 1] == '/' && s[i + 2] == '/' {
        Some(i)
    } else {
        scheme_end_from(s, i + 1)
    }
}

/// Where the authority of the remainder ends: at the first `/` or `?`.
pub open spec fn authority_end(s: Seq<char>) -> int
    decreases s.len(),
{
    if s.len() == 0 || s[0] == '/' || s[0] == '?' {
        0
    } else {
        1 + authority_end(s.drop_first())
    }
}

/// The path and query to request: never empty, always with a leading slash.
pub open spec fn rooted(suffix: Seq<char>) -> Seq<char> {
    if suffix.len() == 0 {
        "/"@
    } else if suffix[0] == '?' {
        "/"@ + suffix
    } else {
        suffix
    }
}

/// The absolute-form target that the text denotes.
pub open spec fn absolute_of(target: Seq<char>) -> Result<RequestTargetView, Http1Error> {
    match scheme_end_from(target, 0) {
        None => Err(Http1Error::InvalidTarget),
        Some(k) => {
            let remainder = target.skip(k + 3);
            match scheme_of(target.take(k)) {
                None => Err(Http1Error::InvalidTarget),
                Some(scheme) => if remainder.contains('#') || remainder.contains('\\') {
                    Err(Http1Error::InvalidTarget)
                } else {
                    let e = authority_end(remainder);
                    match authority_of(remainder.take(e), Some(scheme.port()), false) {
                        None => Err(Http1Error::InvalidAuthority),
                        Some(authority) => Ok(
                            RequestTargetView::Absolute {
                                scheme,
                                authority,
                                path_and_query: rooted(remainder.skip(e)),
                            },
                        ),
                    }
                },
            }
        },
    }
}

/// The target of a request: the authority of a CONNECT, an absolute target of a
/// direct proxy request, or, within a connection, an origin-form target or an
/// absolute one that repeats the secure connection's authority.
pub open spec fn request_target_of(
    method: Seq<char>,
    target: Seq<char>,
    connected_to: Option<AuthorityView>,
) -> Result<RequestTargetView, Http1Error> {
    if text::eq_ignore_case(method, "CONNECT"@) {
        if connected_to is Some {
            Err(Http1Error::TargetMismatch)
        } else {
            match authority_of(target, None, true) {
                Some(authority) => Ok(RequestTargetView::Connect { authority }),
                None => Err(Http1Error::InvalidAuthority),
            }
        }
    } else {
        match connected_to {
            None => absolute_of(target),
            Some(connected) => if target.len() > 0 && target[0] == '/' {
                if target.contains('#') {
                    Err(Http1Error::InvalidTarget)
                } else {
                    Ok(RequestTargetView::Origin { authority: connected, path_and_query: target })
                }
            } else {
                match absolute_of(target) {
                    Err(e) => Err(e),
                    Ok(t) => if t->Absolute_scheme.secure() && t.authority_spec() == connected {
                        Ok(t)
                    } else {
                        Err(Http1Error::TargetMismatch)
                    },
                }
            },
        }
    }
}

pub open spec fn same_target(
    r: Result<RequestTarget, Http1Error>,
    v: Result<RequestTargetView, Http1Error>,
) -> bool {
    match (r, v) {
        (Ok(t), Ok(w)) => t@ == w,
        (Err(e), Err(f)) => e == f,
        _ => false,
    }
}

fn find_scheme_end(chars: &[char]) -> (r: Option<usize>)
    ensures
        match r {
            Some(k) => scheme_end_from(chars@, 0) == Some(k as int) && k + 3 <= chars@.len(),
            None => scheme_end_from(chars@, 0) is None,
        },
{
    let mut i: usize = 0;
    while chars.len() >= 3 && i <= chars.len() - 3
        invariant
            chars@.len() >= 3 ==> i <= chars@.len() - 2,
            chars@.len() < 3 ==> i == 0,
            scheme_end_from(chars@, 0) == scheme_end_from(chars@, i as int),
        decreases chars.len() - i,
    {
        if chars[i] == ':' && chars[i + 1] == '/' && chars[i + 2] == '/' {
            return Some(i);
        }
        i += 1;
    }
    None
}

fn find_authority_end(chars: &[char]) -> (r: usize)
    ensures
        r == authority_end(chars@),
        r <= chars@.len(),
{
    let mut i: usize = 0;
    assert(chars@.skip(0) == chars@);
    while i < chars.len()
        invariant
            i <= chars@.len(),
            authority_end(chars@) == i + authority_end(chars@.skip(i as int)),
        decreases chars.len() - i,
    {
        if chars[i] == '/' || chars[i] == '?' {
            return i;
        }
        assert(chars@.skip(i as int).drop_first() == chars@.skip(i as int + 1));
        i += 1;
    }
    i
}

/// Parses a target in absolute form.
pub fn parse_absolute_target(target: &str) -> (r: Result<AbsoluteTarget, Http1Error>)
    ensures
        match (r, absolute_of(target@)) {
            (Ok(t), Ok(w)) => RequestTarget::Absolute(t)@ == w,
            (Err(e), Err(f)) => e == f,
            _ => false,
        },
{
    let chars = text::to_chars(target);
    let k: usize = match find_scheme_end(chars.as_slice()) {
        Some(k) => k,
        None => {
            return Err(Http1Error::InvalidTarget);
        },
    };
    let scheme_text = text::chars_between(chars.as_slice(), 0, k);
    let remainder = text::chars_between(chars.as_slice(), k + 3, chars.len());
    assert(scheme_text@ == target@.take(k as int));
    assert(remainder@ == target@.skip(k as int + 3));
    let scheme = match parse_scheme(scheme_text.as_slice()) {
        Some(s) => s,
        None => {
            return Err(Http1Error::InvalidTarget);
        },
    };
    if text::contains_char(remainder.as_slice(), '#') || text::contains_char(
        remainder.as_slice(),
        '\\',
    ) {
        return Err(Http1Error::InvalidTarget);
    }
    let e: usize = find_authority_end(remainder.as_slice());
    let authority_text = text::chars_between(remainder.as_slice(), 0, e);
    let suffix = text::chars_between(remainder.as_slice(), e, remainder.len());
    assert(authority_text@ == remainder@.take(e as int));
    assert(suffix@ == remainder@.skip(e as int));
    let authority_text = text::from_chars(authority_text.as_slice());
    let authority = match parse_authority(
        authority_text.as_str(),
        Some(scheme.default_port()),
        false,
    ) {
        Ok(a) => a,
        Err(e) => {
            return Err(e);
        },
    };
    let mut path: Vec<char> = Vec::new();
    if suffix.len() == 0 || suffix[0] == '?' {
        text::push_str(&mut path, "/");
    }
    text::push_chars(&mut path, suffix.as_slice());
    assert(path@ == rooted(suffix@)) by {
        reveal_strlit("/");
    }
    Ok(AbsoluteTarget { scheme, authority, path_and_query: text::from_chars(path.as_slice()) })
}

/// Parses the target of a request, within a connection where one is given.
pub fn parse_request_target(
    method: &str,
    target: &str,
    connected_to: Option<&Authority>,
) -> (r: Result<RequestTarget, Http1Error>)
    ensures
        same_target(
            r,
            request_target_of(
                method@,
                target@,
                match connected_to {
                    Some(a) => Some(a@),
                    None => None,
                },
            ),
        ),
{
    if text::same_ignore_case(method, "CONNECT") {
        if connected_to.is_some() {
            return Err(Http1Error::TargetMismatch);
        }
        return match parse_authority(target, None, true) {
            Ok(a) => Ok(RequestTarget::Connect(a)),
            Err(e) => Err(e),
        };
    }
    match connected_to {
        None => match parse_absolute_target(target) {
            Ok(t) => Ok(RequestTarget::Absolute(t)),
            Err(e) => Err(e),
        },
        Some(connected) => {
            let chars = text::to_chars(target);
            if chars.len() > 0 && chars[0] == '/' {
                if text::contains_char(chars.as_slice(), '#') {
                    return Err(Http1Error::InvalidTarget);
                }
                return Ok(
                    RequestTarget::Origin(
                        OriginTarget {
                            authority: connected.copy(),
                            path_and_query: target.to_owned(),
                        },
                    ),
                );
            }
            match parse_absolute_target(target) {
                Ok(t) => if t.scheme.is_secure() && t.authority.same(connected) {
                    Ok(RequestTarget::Absolute(t))
                } else {
                    Err(Http1Error::TargetMismatch)
                },
                Err(e) => Err(e),
            }
        },
    }
}

/// A target within a connection always names the authority that the connection
/// was made to.
pub proof fn connected_targets_keep_the_authority(
    method: Seq<char>,
    target: Seq<char>,
    connected: AuthorityView,
)
    ensures
        match request_target_of(method, target, Some(connected)) {
            Ok(t) => t.authority_spec() == connected && !(t is Connect),
            Err(_) => true,
        },
{
}

/// Every path that is requested begins with a slash.
pub proof fn requested_paths_are_rooted(
    method: Seq<char>,
    target: Seq<char>,
    connected: Option<AuthorityView>,
)
    ensures
        match request_target_of(method, target, connected) {
            Ok(t) => match t.path_spec() {
                Some(p) => p.len() > 0 && p[0] == '/',
                None => t is Connect,
            },
            Err(_) => true,
        },
{
    reveal_strlit("/");
    if scheme_end_from(target, 0) is Some {
        let remainder = target.skip(scheme_end_from(target, 0)->0 + 3);
        lemma_authority_end(remainder);
    }
}

proof fn lemma_authority_end(s: Seq<char>)
    ensures
        0 <= authority_end(s) <= s.len(),
        authority_end(s) < s.len() ==> s[authority_end(s)] == '/' || s[authority_end(s)] == '?',
    decreases s.len(),
{
    if s.len() > 0 && s[0] != '/' && s[0] != '?' {
        lemma_authority_end(s.drop_first());
    }
}

/// Every canonical host is an address or a name, made of few characters.
proof fn lemma_canonical_chars(host: Seq<char>)
    requires
        is_canonical(host),
    ensures
        host.len() > 0,
        forall|i: int|
            0 <= i < host.len() ==> notation::is_address_char(#[trigger] host[i])
                || dns::is_label_char(host[i]),
        host.contains(':') <==> addr::ipv6_of(host) is Some,
{
    if addr::ipv6_of(host) is Some {
        notation::lemma_ipv6_text_chars(addr::ipv6_of(host)->0);
        notation::lemma_ipv6_has_colon(host);
    } else {
        if addr::ipv4_of(host) is Some {
            notation::lemma_ipv4_chars(host);
            assert(text::split(host, '.').len() == 4);
            if host.len() == 0 {
                assert(text::split(host, '.').len() == 1);
            }
        } else {
            dns::lemma_name_chars(host);
        }
        if host.contains(':') {
            let i = choose|i: int| 0 <= i < host.len() && host[i] == ':';
            assert(text::is_digit(host[i]) || host[i] == '.' || dns::is_label_char(host[i]));
        }
    }
}

/// The `Host` field of an authority with a canonical host and a port denotes it again,
/// whatever the default port is: an IPv6 address stands in brackets, and the port is
/// there where it is not the default.
pub proof fn host_headers_are_read_back(a: AuthorityView)
    requires
        is_canonical(a.host),
        a.port != 0,
    ensures
        is_read_back(a),
{
    let h = a.host;
    lemma_canonical_chars(h);
    let port = text::decimal(a.port as nat);
    text::digits_denote_their_number(a.port as nat, 10);
    assert forall|d: u16|
        authority_of(#[trigger] host_header_of(a, d), Some(d), false) == Some(a) by {
        let s = host_header_of(a, d);
        let written = a.port != d;
        let bracketed = h.contains(':');
        let off: int = if bracketed {
            1
        } else {
            0
        };
        let end = h.len() + 2 * off;
        assert forall|i: int| 0 <= i < s.len() implies is_authority_char(#[trigger] s[i]) by {
            if off <= i < off + h.len() {
                assert(s[i] == h[i - off]);
            } else if i > end {
                assert(s[i] == port[i - end - 1]);
                assert(text::is_digit(port[i - end - 1]));
            }
        }
        if bracketed {
            let inner = s.drop_first();
            let close = h.len() as int;
            assert(s[0] == '[');
            assert forall|j: int| 0 <= j < close implies inner[j] != ']' by {
                assert(inner[j] == h[j]);
            }
            assert(inner[close] == ']');
            text::lemma_find(inner, ']', close);
            assert(inner.take(close) =~= h);
            let suffix = inner.skip(close + 1);
            if written {
                assert(suffix =~= seq![':'] + port);
                assert(suffix.drop_first() =~= port);
            } else {
                assert(suffix.len() == 0);
            }
        } else {
            assert(s[0] == h[0]);
            assert forall|j: int| 0 <= j < h.len() implies s[j] != ':' by {
                assert(s[j] == h[j]);
                assert(h.contains(h[j]));
            }
            text::lemma_find(s, ':', h.len() as int);
            if written {
                let rest = s.skip(h.len() as int + 1);
                assert(rest =~= port);
                assert(s.take(h.len() as int) =~= h);
                if rest.contains(':') {
                    let j = choose|j: int| 0 <= j < rest.len() && rest[j] == ':';
                    assert(text::is_digit(port[j]));
                }
            } else {
                assert(s == h);
            }
        }
    }
}

/// An authority is text without controls, spaces and the marks that end or split it.
pub proof fn marks_are_forbidden_in_authorities(c: char)
    ensures
        is_authority_char(c) <==> (c as u32 > 0x20 && c as u32 != 0x7f && c != '@' && c != '/' && c
            != '?' && c != '#' && c as u32 != 0x5c),
{
}

/// A port is a number of one to five digits' worth that is neither zero nor too large,
/// and each is read as itself.
pub proof fn ports_are_read(s: Seq<char>, port: u16)
    ensures
        port_of(s) is Some <==> s.len() > 0 && (forall|i: int|
            0 <= i < s.len() ==> '0' <= #[trigger] s[i] <= '9') && 1 <= text::number(s, 10)
            <= 65535,
        port_of(s) matches Some(p) ==> p == text::number(s, 10),
        port != 0 ==> port_of(text::decimal(port as nat)) == Some(port),
{
    if text::all_digits(s) {
        assert forall|i: int| 0 <= i < s.len() implies '0' <= #[trigger] s[i] <= '9' by {
            assert(text::is_digit(s[i]));
        }
    }
    text::digits_denote_their_number(port as nat, 10);
}

/// Four schemes are known, in any case of letters; two of them are secure, and each has its
/// port.
pub proof fn schemes_are_known_by_name(s: Seq<char>, scheme: Scheme)
    ensures
        scheme_of(s) == (if text::lower(s) == "http"@ {
            Some(Scheme::Http)
        } else if text::lower(s) == "https"@ {
            Some(Scheme::Https)
        } else if text::lower(s) == "ws"@ {
            Some(Scheme::Ws)
        } else if text::lower(s) == "wss"@ {
            Some(Scheme::Wss)
        } else {
            None
        }),
        scheme.port() == (if scheme is Http || scheme is Ws {
            80
        } else {
            443u16
        }),
        scheme.secure() <==> scheme is Https || scheme is Wss,
        scheme_of(scheme.text()) == Some(scheme),
{
    reveal_strlit("http");
    reveal_strlit("https");
    reveal_strlit("ws");
    reveal_strlit("wss");
    assert(text::lower("http"@) =~= "http"@);
    assert(text::lower("https"@) =~= "https"@);
    assert(text::lower("ws"@) =~= "ws"@);
    assert(text::lower("wss"@) =~= "wss"@);
    assert("http"@.len() == 4 && "https"@.len() == 5 && "ws"@.len() == 2 && "wss"@.len() == 3);
}

/// A host without brackets ends at its only colon; an address of the newer kind stands in
/// brackets. What follows the colon is the port.
pub proof fn authorities_are_split(host: Seq<char>, port: Seq<char>)
    requires
        host.len() > 0,
        host[0] != '[',
        !host.contains(':'),
        !port.contains(':'),
    ensures
        split_authority(host) == Some((host, None::<Seq<char>>)),
        split_authority(host.push(':') + port) == Some((host, Some(port))),
        split_authority(host.push(':') + port.push(':')) is None,
{
    text::lemma_find_bounds(host, ':');
    let whole = host.push(':') + port;
    assert forall|j: int| 0 <= j < host.len() implies whole[j] != ':' by {
        assert(whole[j] == host[j]);
        assert(host.contains(host[j]));
    }
    text::lemma_find(whole, ':', host.len() as int);
    assert(whole.take(host.len() as int) =~= host);
    assert(whole.skip(host.len() as int + 1) =~= port);
    let more = host.push(':') + port.push(':');
    assert forall|j: int| 0 <= j < host.len() implies more[j] != ':' by {
        assert(more[j] == host[j]);
        assert(host.contains(host[j]));
    }
    text::lemma_find(more, ':', host.len() as int);
    assert(more.skip(host.len() as int + 1) =~= port.push(':'));
    assert(port.push(':').last() == ':');
    assert(port.push(':').contains(':'));
}

/// An address in brackets is taken with its port, with none, and with nothing else behind
/// it.
pub proof fn bracketed_authorities_are_split(host: Seq<char>, port: Seq<char>, other: char)
    requires
        !host.contains(']'),
        other != ':',
    ensures
        ({
            let bracketed = seq!['['] + host + seq![']'];
            let taken = addr::ipv6_of(host) is Some;
            &&& split_authority(bracketed) == if taken {
                Some((host, None::<Seq<char>>))
            } else {
                None
            }
            &&& split_authority(bracketed + (seq![':'] + port)) == if taken {
                Some((host, Some(port)))
            } else {
                None
            }
            &&& split_authority(bracketed + (seq![other] + port)) is None
            &&& split_authority(seq!['['] + host) is None
        }),
{
    let bracketed = seq!['['] + host + seq![']'];
    lemma_bracketed(host, Seq::empty());
    assert(bracketed + Seq::<char>::empty() =~= bracketed);
    lemma_bracketed(host, seq![':'] + port);
    assert((seq![':'] + port).drop_first() =~= port);
    lemma_bracketed(host, seq![other] + port);
    let open = seq!['['] + host;
    assert(open.drop_first() =~= host);
    text::lemma_find_bounds(host, ']');
}

proof fn lemma_bracketed(host: Seq<char>, suffix: Seq<char>)
    requires
        !host.contains(']'),
    ensures
        ({
            let s = seq!['['] + host + seq![']'] + suffix;
            &&& s[0] == '['
            &&& text::find(s.drop_first(), ']') == host.len()
            &&& host.len() < s.drop_first().len()
            &&& s.drop_first().take(host.len() as int) == host
            &&& s.drop_first().skip(host.len() as int + 1) == suffix
        }),
{
    let s = seq!['['] + host + seq![']'] + suffix;
    let inner = s.drop_first();
    assert forall|j: int| 0 <= j < host.len() implies inner[j] != ']' by {
        assert(inner[j] == host[j]);
        assert(host.contains(host[j]));
    }
    assert(inner[host.len() as int] == ']');
    text::lemma_find(inner, ']', host.len() as int);
    assert(inner.take(host.len() as int) =~= host);
    assert(inner.skip(host.len() as int + 1) =~= suffix);
}

/// An authority is taken exactly where its text is clean, splits, has a host that is a name
/// or an address, and has a port: its own, or the default one where none is demanded.
pub proof fn authorities_are_taken_exactly(
    value: Seq<char>,
    default_port: Option<u16>,
    require_explicit_port: bool,
)
    ensures
        ({
            let clean = value.len() > 0 && forall|i: int|
                0 <= i < value.len() ==> is_authority_char(#[trigger] value[i]);
            let parts = split_authority(value);
            let (host, written) = parts->Some_0;
            let port = if written is Some {
                port_of(written->Some_0)
            } else if require_explicit_port {
                None
            } else {
                default_port
            };
            let r = authority_of(value, default_port, require_explicit_port);
            &&& r is Some <==> clean && parts is Some && host.len() > 0 && normalized_host(host) is Some
                && port is Some
            &&& r matches Some(a) ==> a.host == normalized_host(host)->Some_0 && a.port
                == port->Some_0
        }),
{
}

/// A host is an address, which is written in its one way, or a name, which is what IDNA
/// makes of it, in small letters and without the dot of the root. Digits and dots that
/// are no address are nothing.
pub proof fn hosts_are_addresses_or_names(host: Seq<char>, ascii: Option<Seq<char>>)
    ensures
        ({
            let numeric = forall|i: int|
                0 <= i < host.len() ==> '0' <= #[trigger] host[i] <= '9' || host[i] == '.';
            let low = text::lower(ascii->Some_0);
            let name = if low.len() > 0 && low.last() == '.' {
                low.take(low.len() - 1)
            } else {
                low
            };
            canonical_host(host, ascii) == if addr::ipv6_of(host) is Some {
                Some(addr::ipv6_text(addr::ipv6_of(host)->Some_0))
            } else if addr::ipv4_of(host) is Some {
                Some(addr::ipv4_text(addr::ipv4_of(host)->Some_0))
            } else if numeric || ascii is None || !dns::is_dns_name(name) {
                None
            } else {
                Some(name)
            }
        }),
{
    let low = text::lower(ascii->Some_0);
    if low.len() > 0 {
        assert(low.drop_last() =~= low.take(low.len() - 1));
    }
    if is_numeric_host(host) {
        assert forall|i: int| 0 <= i < host.len() implies '0' <= #[trigger] host[i] <= '9'
            || host[i] == '.' by {
            assert(text::is_digit(host[i]) || host[i] == '.');
        }
    }
}

/// An absolute target is a scheme, `://`, an authority and a path, which is rooted where it
/// is empty or only a query.
pub proof fn absolute_targets_are_read(scheme: Scheme, authority: Seq<char>, suffix: Seq<char>)
    requires
        forall|i: int|
            0 <= i < authority.len() ==> #[trigger] authority[i] != '/' && authority[i] != '?'
                && authority[i] != '#' && authority[i] != '\\',
        suffix.len() > 0 ==> suffix[0] == '/' || suffix[0] == '?',
        !suffix.contains('#'),
        !suffix.contains('\\'),
    ensures
        ({
            let at = authority_of(authority, Some(scheme.port()), false);
            let r = absolute_of(scheme.text() + "://"@ + authority + suffix);
            &&& r is Ok <==> at is Some
            &&& r is Ok ==> r->Ok_0 == (RequestTargetView::Absolute {
                scheme,
                authority: at->Some_0,
                path_and_query: if suffix.len() == 0 {
                    "/"@
                } else if suffix[0] == '?' {
                    "/"@ + suffix
                } else {
                    suffix
                },
            })
            &&& r is Err ==> r->Err_0 == Http1Error::InvalidAuthority
        }),
{
    schemes_are_known_by_name(scheme.text(), scheme);
    reveal_strlit("http");
    reveal_strlit("https");
    reveal_strlit("ws");
    reveal_strlit("wss");
    reveal_strlit("://");
    let name = scheme.text();
    let t = name + "://"@ + authority + suffix;
    let n = name.len() as int;
    assert forall|j: int| 0 <= j < n implies t[j] != ':' by {
        assert(t[j] == name[j]);
    }
    assert(t[n] == "://"@[0] && t[n + 1] == "://"@[1] && t[n + 2] == "://"@[2]);
    lemma_scheme_end(t, 0, n);
    assert(t.take(n) =~= name);
    let remainder = authority + suffix;
    assert(t.skip(n + 3) =~= remainder);
    assert forall|i: int| 0 <= i < remainder.len() implies #[trigger] remainder[i] != '#'
        && remainder[i] != '\\' by {
        if i < authority.len() {
            assert(remainder[i] == authority[i]);
        } else {
            assert(remainder[i] == suffix[i - authority.len()]);
            assert(suffix.contains(suffix[i - authority.len()]));
        }
    }
    lemma_authority_ends(authority, suffix);
    assert(remainder.take(authority.len() as int) =~= authority);
    assert(remainder.skip(authority.len() as int) =~= suffix);
}

proof fn lemma_scheme_end(t: Seq<char>, i: int, n: int)
    requires
        0 <= i <= n,
        n + 3 <= t.len(),
        forall|j: int| 0 <= j < n ==> t[j] != ':',
        t[n] == ':' && t[n + 1] == '/' && t[n + 2] == '/',
    ensures
        scheme_end_from(t, i) == Some(n),
    decreases n - i,
{
    if i < n {
        lemma_scheme_end(t, i + 1, n);
    }
}

proof fn lemma_authority_ends(authority: Seq<char>, suffix: Seq<char>)
    requires
        forall|i: int|
            0 <= i < authority.len() ==> #[trigger] authority[i] != '/' && authority[i] != '?',
        suffix.len() > 0 ==> suffix[0] == '/' || suffix[0] == '?',
    ensures
        authority_end(authority + suffix) == authority.len(),
    decreases authority.len(),
{
    if authority.len() > 0 {
        assert((authority + suffix)[0] == authority[0]);
        assert((authority + suffix).drop_first() =~= authority.drop_first() + suffix);
        lemma_authority_ends(authority.drop_first(), suffix);
    } else {
        assert(authority + suffix =~= suffix);
    }
}

/// A target without `://`, with another scheme, or with a mark that no target has, is
/// none.
pub proof fn other_targets_are_invalid(target: Seq<char>)
    ensures
        match scheme_end_from(target, 0) {
            None => absolute_of(target) == Err::<RequestTargetView, Http1Error>(
                Http1Error::InvalidTarget,
            ),
            Some(k) => {
                let rest = target.skip(k + 3);
                scheme_of(target.take(k)) is None || rest.contains('#') || rest.contains('\\')
                    ==> absolute_of(target) == Err::<RequestTargetView, Http1Error>(
                    Http1Error::InvalidTarget,
                )
            },
        },
{
}

/// A CONNECT names an authority with its port, and none is made inside another. Outside, all
/// other targets are absolute. Inside, a target is a path of the authority that was
/// connected to, or an absolute one that is secure and names it.
pub proof fn targets_follow_the_method(
    method: Seq<char>,
    target: Seq<char>,
    connected: AuthorityView,
)
    ensures
        ({
            let connects = text::lower(method) == "connect"@;
            let outside = request_target_of(method, target, None);
            let inside = request_target_of(method, target, Some(connected));
            let named = authority_of(target, None, true);
            let absolute = absolute_of(target);
            let path = target.len() > 0 && target[0] == '/';
            &&& connects ==> outside == (match named {
                Some(authority) => Ok(RequestTargetView::Connect { authority }),
                None => Err(Http1Error::InvalidAuthority),
            })
            &&& connects ==> inside == Err::<RequestTargetView, Http1Error>(
                Http1Error::TargetMismatch,
            )
            &&& !connects ==> outside == absolute
            &&& !connects && path && !target.contains('#') ==> inside == Ok::<
                RequestTargetView,
                Http1Error,
            >(RequestTargetView::Origin { authority: connected, path_and_query: target })
            &&& !connects && path && target.contains('#') ==> inside == Err::<
                RequestTargetView,
                Http1Error,
            >(Http1Error::InvalidTarget)
            &&& !connects && !path && absolute is Err ==> inside == absolute
            &&& !connects && !path ==> (absolute matches Ok(
                RequestTargetView::Absolute { scheme, authority, .. },
            ) ==> inside == if (scheme is Https || scheme is Wss) && authority == connected {
                absolute
            } else {
                Err(Http1Error::TargetMismatch)
            })
        }),
{
    reveal_strlit("CONNECT");
    reveal_strlit("connect");
    assert(text::lower("CONNECT"@) =~= "connect"@);
}

/// A target that is parsed is the one that is meant, and so is a fault.
pub proof fn parsed_targets_agree(
    r: Result<RequestTarget, Http1Error>,
    v: Result<RequestTargetView, Http1Error>,
)
    ensures
        same_target(r, v) <==> {
            &&& r is Ok <==> v is Ok
            &&& r is Ok ==> r->Ok_0@ == v->Ok_0
            &&& r is Err ==> r->Err_0 == v->Err_0
        },
{
}

/// An authority that is parsed is the one that is meant; any other is invalid.
pub proof fn parsed_authorities_agree(r: Result<Authority, Http1Error>, v: Option<AuthorityView>)
    ensures
        same_authority(r, v) <==> {
            &&& r is Ok <==> v is Some
            &&& r is Ok ==> r->Ok_0@ == v->Some_0
            &&& r is Err ==> r->Err_0 == Http1Error::InvalidAuthority
        },
{
}

/// A host field is the host, in brackets where it is an address of the newer kind, with the
/// port behind a colon where it is not the usual one.
pub proof fn host_fields_are_written(a: AuthorityView, default_port: u16)
    ensures
        ({
            let host = if a.host.contains(':') {
                seq!['['] + a.host + seq![']']
            } else {
                a.host
            };
            host_header_of(a, default_port) == if a.port == default_port {
                host
            } else {
                host + seq![':'] + text::decimal(a.port as nat)
            }
        }),
{
}

/// Authorities are parsed as they are meant, and written as a host field.
pub proof fn authorities_are_parsed(
    value: &str,
    default_port: Option<u16>,
    explicit: bool,
    r: Result<Authority, Http1Error>,
    a: &Authority,
    usual: u16,
    field: String,
)
    requires
        call_ensures(parse_authority, (value, default_port, explicit), r),
        call_ensures(Authority::host_header, (a, usual), field),
    ensures
        same_authority(r, authority_of(value@, default_port, explicit)),
        field@ == host_header_of(a@, usual),
{
}

/// An authority and what is asked of it are described by the scheme and the port; hosts and
/// paths are not told.
pub proof fn hosts_and_paths_are_not_told(scheme: Scheme, port: u16)
    ensures
        authority_description(port) == "Authority { host: \"<redacted>\", port: "@ + text::decimal(
            port as nat,
        ) + " }"@,
        absolute_description(scheme, port) == "AbsoluteTarget { scheme: "@ + (match scheme {
            Scheme::Http => "Http"@,
            Scheme::Https => "Https"@,
            Scheme::Ws => "Ws"@,
            Scheme::Wss => "Wss"@,
        }) + ", authority: "@ + authority_description(port)
            + ", path_and_query: \"<redacted>\" }"@,
        origin_description(port) == "OriginTarget { authority: "@ + authority_description(port)
            + ", path_and_query: \"<redacted>\" }"@,
{
}

} // verus!

//! Privacy-preserving proxy observation.
//!
//! Events have no free-form text fields: a request target, query, header,
//! credential, payload or backend error detail cannot cross this interface.

use crate::addr;
use crate::dns;
use crate::notation;
use crate::text;
use std::time::Duration;
use vstd::prelude::*;

verus! {

/// A canonical ASCII DNS host or public IP literal suitable for diagnostics.
#[derive(Clone, Debug, PartialEq, Eq, PartialOrd, Ord, Hash)]
pub struct ObservedHost {
    name: String,
}

#[derive(Clone, Copy, Debug, PartialEq, Eq, Structural)]
pub enum ObservedHostError {
    Empty,
    InvalidDnsName,
}

pub open spec fn observed_host_error_text(e: ObservedHostError) -> Seq<char> {
    match e {
        ObservedHostError::Empty => "observed host is empty"@,
        ObservedHostError::InvalidDnsName => "observed host is not a canonical ASCII DNS name"@,
    }
}

impl ObservedHostError {
    /// What went wrong, in words.
    pub fn message(&self) -> (r: &'static str)
        ensures
            r@ == observed_host_error_text(*self),
    {
        match self {
            ObservedHostError::Empty => "observed host is empty",
            ObservedHostError::InvalidDnsName => "observed host is not a canonical ASCII DNS name",
        }
    }
}

impl View for ObservedHost {
    type V = Seq<char>;

    closed spec fn view(&self) -> Seq<char> {
        self.name@
    }
}

/// The observable form of a host: a DNS name in lower case, or a public address
/// that is written canonically.
pub open spec fn observed_host(host: Seq<char>) -> Result<Seq<char>, ObservedHostError> {
    let low = text::lower(host);
    if host.len() == 0 {
        Err(ObservedHostError::Empty)
    } else if host.len() > dns::MAX_NAME_LENGTH || !vstd::utf8::is_ascii_chars(host) {
        Err(ObservedHostError::InvalidDnsName)
    } else {
        match addr::ip_of(host) {
            Some(ip) => if addr::is_public_ip(ip) && addr::ip_text(ip) == low {
                Ok(low)
            } else {
                Err(ObservedHostError::InvalidDnsName)
            },
            None => if dns::is_dns_name(host) {
                Ok(low)
            } else {
                Err(ObservedHostError::InvalidDnsName)
            },
        }
    }
}

impl ObservedHost {
    pub fn new(host: &str) -> (r: Result<Self, ObservedHostError>)
        ensures
            match (r, observed_host(host@)) {
                (Ok(h), Ok(v)) => h@ == v,
                (Err(e), Err(f)) => e == f,
                _ => false,
            },
    {
        let chars = text::to_chars(host);
        if chars.len() == 0 {
            return Err(ObservedHostError::Empty);
        }
        if chars.len() > dns::MAX_NAME_LENGTH || !host.is_ascii() {
            return Err(ObservedHostError::InvalidDnsName);
        }
        let low = text::lower_chars(chars.as_slice());
        match addr::parse_ip(chars.as_slice()) {
            Some(ip) => {
                let canonical = ip.to_chars();
                if !ip.is_public() || !text::same_chars(canonical.as_slice(), low.as_slice()) {
                    return Err(ObservedHostError::InvalidDnsName);
                }
            },
            None => {
                if !dns::validate_ascii_dns_name(chars.as_slice()) {
                    return Err(ObservedHostError::InvalidDnsName);
                }
            },
        }
        Ok(ObservedHost { name: text::from_chars(low.as_slice()) })
    }

    pub fn as_str(&self) -> (r: &str)
        ensures
            r@ == self@,
    {
        self.name.as_str()
    }

    pub(crate) fn copy(&self) -> (r: Self)
        ensures
            r@ == self@,
    {
        ObservedHost { name: self.name.clone() }
    }
}

#[derive(Clone, Copy, Debug, PartialEq, Eq, Structural)]
pub enum ObservedMethod {
    Get,
    Head,
    Post,
    Put,
    Delete,
    Options,
    Patch,
    Connect,
    Other,
}

pub open spec fn method_of(method: Seq<char>) -> ObservedMethod {
    if text::eq_ignore_case(method, "GET"@) {
        ObservedMethod::Get
    } else if text::eq_ignore_case(method, "HEAD"@) {
        ObservedMethod::Head
    } else if text::eq_ignore_case(method, "POST"@) {
        ObservedMethod::Post
    } else if text::eq_ignore_case(method, "PUT"@) {
        ObservedMethod::Put
    } else if text::eq_ignore_case(method, "DELETE"@) {
        ObservedMethod::Delete
    } else if text::eq_ignore_case(method, "OPTIONS"@) {
        ObservedMethod::Options
    } else if text::eq_ignore_case(method, "PATCH"@) {
        ObservedMethod::Patch
    } else if text::eq_ignore_case(method, "CONNECT"@) {
        ObservedMethod::Connect
    } else {
        ObservedMethod::Other
    }
}

impl ObservedMethod {
    pub fn from_token(method: &str) -> (r: Self)
        ensures
            r == method_of(method@),
    {
        if text::same_ignore_case(method, "GET") {
            ObservedMethod::Get
        } else if text::same_ignore_case(method, "HEAD") {
            ObservedMethod::Head
        } else if text::same_ignore_case(method, "POST") {
            ObservedMethod::Post
        } else if text::same_ignore_case(method, "PUT") {
            ObservedMethod::Put
        } else if text::same_ignore_case(method, "DELETE") {
            ObservedMethod::Delete
        } else if text::same_ignore_case(method, "OPTIONS") {
            ObservedMethod::Options
        } else if text::same_ignore_case(method, "PATCH") {
            ObservedMethod::Patch
        } else if text::same_ignore_case(method, "CONNECT") {
            ObservedMethod::Connect
        } else {
            ObservedMethod::Other
        }
    }

    pub open spec fn text(self) -> Seq<char> {
        match self {
            ObservedMethod::Get => "Get"@,
            ObservedMethod::Head => "Head"@,
            ObservedMethod::Post => "Post"@,
            ObservedMethod::Put => "Put"@,
            ObservedMethod::Delete => "Delete"@,
            ObservedMethod::Options => "Options"@,
            ObservedMethod::Patch => "Patch"@,
            ObservedMethod::Connect => "Connect"@,
            ObservedMethod::Other => "Other"@,
        }
    }

    pub fn as_str(self) -> (r: &'static str)
        ensures
            r@ == self.text(),
    {
        match self {
            ObservedMethod::Get => "Get",
            ObservedMethod::Head => "Head",
            ObservedMethod::Post => "Post",
            ObservedMethod::Put => "Put",
            ObservedMethod::Delete => "Delete",
            ObservedMethod::Options => "Options",
            ObservedMethod::Patch => "Patch",
            ObservedMethod::Connect => "Connect",
            ObservedMethod::Other => "Other",
        }
    }
}

#[derive(Clone, Copy, Debug, PartialEq, Eq, Structural)]
pub enum StopReason {
    Requested,
    Cancelled,
    ListenerFailure,
}

#[derive(Clone, Copy, Debug, PartialEq, Eq, Structural)]
pub enum LifecycleEvent {
    Listening { port: u16 },
    Stopping,
    Stopped { reason: StopReason },
}

#[derive(Clone, Copy, Debug, PartialEq, Eq, Structural)]
pub enum ClientRejectionReason {
    ActiveClientLimit,
    AuthenticationRequired,
    InvalidRequest,
    Cancelled,
    InvalidPeer,
}

#[derive(Clone, Copy, Debug, PartialEq, Eq, Structural)]
pub enum RequestRejectionReason {
    AuthenticationRequired,
    InvalidRequest,
    HostOutsideScope,
    GlobalRateLimit,
    HostRateLimit,
    RequestTooLarge,
    Cancelled,
}

#[derive(Clone, Copy, Debug, PartialEq, Eq, Structural)]
pub enum BackendFailureKind {
    Cancelled,
    InvalidRequest,
    PolicyDenied,
    Resolution,
    TlsValidation,
    Upstream,
    InvalidResponse,
    ResponseTooLarge,
    Internal,
}

#[derive(Clone, Copy, Debug, PartialEq, Eq)]
pub enum RequestPhase {
    Accepted,
    Completed { status_code: u16, elapsed: Duration },
    Rejected { reason: RequestRejectionReason },
    BackendFailed { kind: BackendFailureKind, elapsed: Duration },
}

/// A sanitized event of one proxy generation.
#[derive(Clone, Debug, PartialEq, Eq)]
pub enum ProxyEvent {
    Lifecycle { generation: u64, event: LifecycleEvent },
    ClientRejected { generation: u64, reason: ClientRejectionReason },
    Request { generation: u64, host: ObservedHost, method: ObservedMethod, phase: RequestPhase },
}

/// The event for a phase of a request, where its host can be observed.
pub fn request_event(
    generation: u64,
    host: &str,
    method: ObservedMethod,
    phase: RequestPhase,
) -> (r: Option<ProxyEvent>)
    ensures
        match (r, observed_host(host@)) {
            (Some(ProxyEvent::Request { generation: g, host: h, method: m, phase: p }), Ok(v)) => g
                == generation && h@ == v && m == method && p == phase,
            (None, Err(_)) => true,
            _ => false,
        },
{
    match ObservedHost::new(host) {
        Ok(host) => Some(ProxyEvent::Request { generation, host, method, phase }),
        Err(_) => None,
    }
}

/// Receives events. Implementations must return promptly and must not panic.
pub trait ProxyObserver {
    fn observe(&self, event: &ProxyEvent);
}

#[derive(Clone, Copy, Debug)]
pub struct NoopProxyObserver;

impl ProxyObserver for NoopProxyObserver {
    fn observe(&self, _event: &ProxyEvent) {
    }
}

// ---------------------------------------------------------------------
// Laws
// ---------------------------------------------------------------------

/// Characters that could carry more than a host into a diagnostic.
pub open spec fn is_telling(c: char) -> bool {
    c == '@' || c == '/' || c == '?' || c == '#' || c == '%' || c == ' '
}

proof fn lemma_lower_split(s: Seq<char>)
    ensures
        text::split(text::lower(s), '.') == text::split(s, '.').map_values(
            |l: Seq<char>| text::lower(l),
        ),
    decreases s.len(),
{
    let low = text::lower(s);
    let f = |l: Seq<char>| text::lower(l);
    let pieces = text::split(s, '.');
    if s.len() > 0 {
        let t = s.drop_last();
        lemma_lower_split(t);
        text::lemma_split_nonempty(t, '.');
        assert(low.drop_last() =~= text::lower(t));
        let before = text::split(t, '.');
        assert(low.last() == text::lower_char(s.last()));
        if s.last() == '.' {
            assert(text::lower(Seq::<char>::empty()) =~= Seq::<char>::empty());
            assert(pieces.map_values(f) =~= before.map_values(f).push(Seq::empty()));
        } else {
            assert(low.last() != '.');
            let last = before.last();
            assert(text::lower(last.push(s.last())) =~= text::lower(last).push(low.last()));
            assert(before.map_values(f).last() == text::lower(last));
            assert(pieces.map_values(f) =~= before.map_values(f).drop_last().push(
                text::lower(last).push(low.last()),
            ));
        }
    } else {
        assert(low =~= Seq::<char>::empty());
        assert(text::lower(Seq::<char>::empty()) =~= Seq::<char>::empty());
        assert(pieces.map_values(f) =~= seq![Seq::<char>::empty()]);
    }
}

/// A DNS name in lower case is one.
proof fn lemma_lower_name(s: Seq<char>)
    requires
        dns::is_dns_name(s),
    ensures
        dns::is_dns_name(text::lower(s)),
{
    lemma_lower_split(s);
    let labels = text::split(s, '.');
    let lows = text::split(text::lower(s), '.');
    assert forall|i: int| 0 <= i < lows.len() implies dns::is_label(#[trigger] lows[i]) by {
        let l = labels[i];
        assert(dns::is_label(l));
        assert(lows[i] == text::lower(l));
        assert(lows[i].last() == text::lower_char(l.last()));
        assert forall|j: int| 0 <= j < lows[i].len() implies dns::is_label_char(
            #[trigger] lows[i][j],
        ) by {
            assert(dns::is_label_char(l[j]));
        }
    }
}

/// Whatever can be observed is the host in lower case, of bounded length, in ASCII,
/// without a character that could carry more than a host, and is observed unchanged
/// when it is observed again.
pub proof fn observed_hosts_stay(host: Seq<char>)
    requires
        observed_host(host) is Ok,
    ensures
        ({
            let seen = observed_host(host)->Ok_0;
            &&& seen == text::lower(host)
            &&& 1 <= seen.len() <= dns::MAX_NAME_LENGTH
            &&& vstd::utf8::is_ascii_chars(seen)
            &&& forall|i: int| 0 <= i < seen.len() ==> !is_telling(#[trigger] seen[i])
            &&& observed_host(seen) == Ok::<Seq<char>, ObservedHostError>(seen)
        }),
{
    let seen = observed_host(host)->Ok_0;
    text::lower_is_idempotent(host);
    assert forall|i: int| 0 <= i < seen.len() implies (#[trigger] seen[i] as u32) < 0x80 by {
        assert((host[i] as u32) < 0x80);
    }
    match addr::ip_of(host) {
        Some(ip) => {
            match ip {
                addr::IpAddr::V4(a) => {
                    notation::ipv4_addresses_are_read_back(a);
                    notation::lemma_ipv4_chars(seen);
                },
                addr::IpAddr::V6(a) => {
                    notation::ipv6_addresses_are_read_back(a);
                    notation::lemma_ipv6_text_chars(a);
                    notation::lemma_ipv6_has_colon(seen);
                    if addr::ipv4_of(seen) is Some {
                        notation::lemma_ipv4_chars(seen);
                        let i = choose|i: int| 0 <= i < seen.len() && seen[i] == ':';
                        assert(text::is_digit(seen[i]) || seen[i] == '.');
                    }
                },
            }
        },
        None => {
            lemma_lower_name(host);
            dns::lemma_name_chars(seen);
            if addr::ipv6_of(seen) is Some {
                notation::lemma_ipv6_has_colon(seen);
                let i = choose|i: int| 0 <= i < seen.len() && seen[i] == ':';
                assert(seen[i] == '.' || dns::is_label_char(seen[i]));
            }
            if addr::ipv4_of(seen) is Some {
                notation::lemma_ipv4_chars(seen);
                assert forall|i: int| 0 <= i < seen.len() implies seen[i] == host[i] by {
                    assert(text::is_digit(seen[i]) || seen[i] == '.');
                }
                assert(seen =~= host);
            }
        },
    }
}

/// Every DNS name of at most 253 ASCII characters that is no address is observed in lower
/// case; an address exactly where it is public and written as itself; nothing else.
pub proof fn names_and_public_addresses_are_observed(host: Seq<char>)
    ensures
        observed_host(host) is Ok <==> {
            &&& 1 <= host.len() <= 253
            &&& vstd::utf8::is_ascii_chars(host)
            &&& match addr::ip_of(host) {
                Some(ip) => addr::is_public_ip(ip) && addr::ip_text(ip) == text::lower(host),
                None => dns::is_dns_name(host),
            }
        },
        observed_host(host) matches Ok(seen) ==> seen == text::lower(host),
        observed_host(host) == Err::<Seq<char>, ObservedHostError>(ObservedHostError::Empty)
            <==> host.len() == 0,
{
}

/// A method is known by its name in any case, and eight names are known.
pub proof fn methods_are_known_by_name(method: Seq<char>)
    ensures
        method_of(method) is Get <==> text::lower(method) == "get"@,
        method_of(method) is Head <==> text::lower(method) == "head"@,
        method_of(method) is Post <==> text::lower(method) == "post"@,
        method_of(method) is Put <==> text::lower(method) == "put"@,
        method_of(method) is Delete <==> text::lower(method) == "delete"@,
        method_of(method) is Options <==> text::lower(method) == "options"@,
        method_of(method) is Patch <==> text::lower(method) == "patch"@,
        method_of(method) is Connect <==> text::lower(method) == "connect"@,
{
    reveal_strlit("GET");
    reveal_strlit("get");
    assert(text::lower("GET"@) =~= "get"@);
    reveal_strlit("HEAD");
    reveal_strlit("head");
    assert(text::lower("HEAD"@) =~= "head"@);
    reveal_strlit("POST");
    reveal_strlit("post");
    assert(text::lower("POST"@) =~= "post"@);
    reveal_strlit("PUT");
    reveal_strlit("put");
    assert(text::lower("PUT"@) =~= "put"@);
    reveal_strlit("DELETE");
    reveal_strlit("delete");
    assert(text::lower("DELETE"@) =~= "delete"@);
    reveal_strlit("OPTIONS");
    reveal_strlit("options");
    assert(text::lower("OPTIONS"@) =~= "options"@);
    reveal_strlit("PATCH");
    reveal_strlit("patch");
    assert(text::lower("PATCH"@) =~= "patch"@);
    reveal_strlit("CONNECT");
    reveal_strlit("connect");
    assert(text::lower("CONNECT"@) =~= "connect"@);
    assert("get"@[0] == 'g' && "head"@[0] == 'h' && "post"@[1] == 'o' && "put"@[1] == 'u'
        && "patch"@[1] == 'a' && "delete"@[0] == 'd' && "options"@[0] == 'o' && "connect"@[0]
        == 'c' && "post"@[0] == 'p' && "put"@[0] == 'p' && "patch"@[0] == 'p');
}

/// Hosts and methods are observed as they are meant.
pub proof fn requests_are_observed(
    host: &str,
    seen: Result<ObservedHost, ObservedHostError>,
    method: &str,
    token: ObservedMethod,
)
    requires
        call_ensures(ObservedHost::new, (host,), seen),
        call_ensures(ObservedMethod::from_token, (method,), token),
    ensures
        seen is Ok <==> observed_host(host@) is Ok,
        seen is Ok ==> seen->Ok_0@ == observed_host(host@)->Ok_0,
        seen is Err ==> seen->Err_0 == observed_host(host@)->Err_0,
        token == method_of(method@),
{
}

/// Each fault is told in its own words.
pub proof fn faults_of_observed_hosts_have_their_words(e: ObservedHostError)
    ensures
        observed_host_error_text(e) == (match e {
            ObservedHostError::Empty => "observed host is empty"@,
            ObservedHostError::InvalidDnsName => "observed host is not a canonical ASCII DNS name"@,
        }),
{
}

} // verus!

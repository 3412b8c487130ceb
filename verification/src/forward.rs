//! Request fields that the proxy forwards.

use crate::backend;
use crate::backend::ProxyHeader;
use crate::body;
use crate::http1;
use crate::http1::{Header, HeaderView, Http1Error, RequestHead};
use crate::target::Scheme;
use crate::text;
use vstd::prelude::*;

verus! {

// ---------------------------------------------------------------------
// Lists of tokens
// ---------------------------------------------------------------------

pub open spec fn is_token_text(s: Seq<char>) -> bool {
    s.len() > 0 && forall|i: int|
        0 <= i < s.len() ==> (#[trigger] s[i] as u32) < 0x80 && http1::is_token_byte(s[i] as u8)
}

pub fn is_token_chars(s: &[char]) -> (r: bool)
    ensures
        r == is_token_text(s@),
{
    if s.len() == 0 {
        return false;
    }
    let mut i: usize = 0;
    while i < s.len()
        invariant
            i <= s@.len(),
            forall|j: int|
                0 <= j < i ==> (#[trigger] s@[j] as u32) < 0x80 && http1::is_token_byte(
                    s@[j] as u8,
                ),
        decreases s.len() - i,
    {
        let c = s[i];
        if c as u32 >= 0x80 || !http1::byte_is_token(c as u8) {
            return false;
        }
        i += 1;
    }
    true
}

/// The comma-separated members of a list, without whitespace around them.
pub open spec fn members(value: Seq<char>) -> Seq<Seq<char>> {
    text::split(value, ',').map_values(|p: Seq<char>| text::trim(p))
}

pub open spec fn has_member(value: Seq<char>, token: Seq<char>) -> bool {
    exists|i: int|
        0 <= i < members(value).len() && text::eq_ignore_case(#[trigger] members(value)[i], token)
}

pub open spec fn char_views(v: Seq<Vec<char>>) -> Seq<Seq<char>> {
    v.map_values(|p: Vec<char>| p@)
}

pub fn list_members(value: &str) -> (r: Vec<Vec<char>>)
    ensures
        char_views(r@) == members(value@),
{
    let chars = text::to_chars(value);
    let pieces = text::split_chars(chars.as_slice(), ',');
    let ghost ps = text::split(value@, ',');
    let mut out: Vec<Vec<char>> = Vec::new();
    let mut i: usize = 0;
    assert(pieces@.map_values(|p: Vec<char>| p@).len() == pieces@.len());
    while i < pieces.len()
        invariant
            i <= pieces@.len() == ps.len(),
            ps == text::split(value@, ','),
            pieces@.map_values(|p: Vec<char>| p@) == ps,
            char_views(out@) == members(value@).take(i as int),
        decreases pieces.len() - i,
    {
        assert(pieces@.map_values(|p: Vec<char>| p@)[i as int] == pieces@[i as int]@);
        let t = text::trim_chars(pieces[i].as_slice());
        let ghost before = out@;
        out.push(t);
        proof {
            assert(char_views(out@) == char_views(before).push(t@));
            assert(members(value@).take(i as int + 1) == members(value@).take(i as int).push(
                members(value@)[i as int],
            ));
        }
        i += 1;
    }
    assert(members(value@).take(i as int) == members(value@));
    out
}

pub fn has_header_token(value: &str, expected: &str) -> (r: bool)
    ensures
        r == has_member(value@, expected@),
{
    let list = list_members(value);
    let ghost ms = members(value@);
    let mut i: usize = 0;
    assert(char_views(list@).len() == list@.len());
    while i < list.len()
        invariant
            i <= list@.len() == ms.len(),
            ms == members(value@),
            char_views(list@) == ms,
            forall|j: int| 0 <= j < i ==> !text::eq_ignore_case(#[trigger] ms[j], expected@),
        decreases list.len() - i,
    {
        assert(char_views(list@)[i as int] == list@[i as int]@);
        if text::chars_are_ignoring_case(list[i].as_slice(), expected) {
            assert(text::eq_ignore_case(members(value@)[i as int], expected@));
            return true;
        }
        i += 1;
    }
    false
}

// ---------------------------------------------------------------------
// Nominated fields
// ---------------------------------------------------------------------

pub open spec fn all_tokens(list: Seq<Seq<char>>) -> bool {
    forall|i: int| 0 <= i < list.len() ==> is_token_text(#[trigger] list[i])
}

pub open spec fn lower_all(list: Seq<Seq<char>>) -> Seq<Seq<char>> {
    list.map_values(|s: Seq<char>| text::lower(s))
}

pub open spec fn nominates(name: Seq<char>) -> bool {
    text::eq_ignore_case(name, "connection"@) || text::eq_ignore_case(name, "proxy-connection"@)
}

/// The names, in lower case, that the connection fields nominate; a member that
/// is not a token is refused.
pub open spec fn nominated(headers: Seq<HeaderView>) -> Result<Seq<Seq<char>>, Http1Error>
    decreases headers.len(),
{
    if headers.len() == 0 {
        Ok(Seq::empty())
    } else {
        match nominated(headers.drop_last()) {
            Err(e) => Err(e),
            Ok(names) => if !nominates(headers.last().name) {
                Ok(names)
            } else if all_tokens(members(headers.last().value)) {
                Ok(names + lower_all(members(headers.last().value)))
            } else {
                Err(Http1Error::InvalidHeader)
            },
        }
    }
}

proof fn lemma_nomination_error(headers: Seq<HeaderView>, i: int)
    requires
        0 <= i <= headers.len(),
        nominated(headers.take(i)) is Err,
    ensures
        nominated(headers) == nominated(headers.take(i)),
    decreases headers.len() - i,
{
    if i == headers.len() {
        assert(headers.take(i) == headers);
    } else {
        assert(headers.take(i + 1).drop_last() == headers.take(i));
        lemma_nomination_error(headers, i + 1);
    }
}

/// Appends the members of a list in lower case, where all of them are tokens.
pub fn add_members(names: &mut Vec<Vec<char>>, value: &str) -> (r: bool)
    ensures
        r == all_tokens(members(value@)),
        r ==> char_views(final(names)@) == char_views(old(names)@) + lower_all(members(value@)),
{
    let list = list_members(value);
    let ghost ms = members(value@);
    let ghost start = char_views(names@);
    let mut i: usize = 0;
    assert(char_views(list@).len() == list@.len());
    assert(start + lower_all(ms).take(0) == start);
    while i < list.len()
        invariant
            i <= list@.len() == ms.len(),
            ms == members(value@),
            char_views(list@) == ms,
            forall|j: int| 0 <= j < i ==> is_token_text(#[trigger] ms[j]),
            char_views(names@) == start + lower_all(ms).take(i as int),
        decreases list.len() - i,
    {
        assert(char_views(list@)[i as int] == list@[i as int]@);
        if !is_token_chars(list[i].as_slice()) {
            assert(!is_token_text(ms[i as int]));
            return false;
        }
        let low = text::lower_chars(list[i].as_slice());
        let ghost before = names@;
        names.push(low);
        proof {
            assert(char_views(names@) == char_views(before).push(low@));
            assert(lower_all(ms)[i as int] == low@);
            assert(start + lower_all(ms).take(i as int + 1) == (start + lower_all(ms).take(
                i as int,
            )).push(low@));
        }
        i += 1;
    }
    assert(lower_all(ms).take(i as int) == lower_all(ms));
    true
}

/// The names that the connection fields of a request nominate, in lower case.
pub fn connection_nominated_fields(headers: &[Header]) -> (r: Result<Vec<Vec<char>>, Http1Error>)
    ensures
        match (r, nominated(http1::header_views(headers@))) {
            (Ok(n), Ok(v)) => char_views(n@) == v,
            (Err(e), Err(f)) => e == f,
            _ => false,
        },
{
    let ghost hs = http1::header_views(headers@);
    let mut names: Vec<Vec<char>> = Vec::new();
    let mut i: usize = 0;
    assert(char_views(names@) == Seq::<Seq<char>>::empty());
    assert(hs.take(0) == Seq::<HeaderView>::empty());
    while i < headers.len()
        invariant
            i <= headers@.len() == hs.len(),
            hs == http1::header_views(headers@),
            nominated(hs.take(i as int)) == Ok::<Seq<Seq<char>>, Http1Error>(char_views(names@)),
        decreases headers.len() - i,
    {
        let h = &headers[i];
        proof {
            assert(hs.take(i as int + 1).drop_last() == hs.take(i as int));
            assert(hs[i as int] == h@);
        }
        if text::same_ignore_case(h.name(), "connection") || text::same_ignore_case(
            h.name(),
            "proxy-connection",
        ) {
            if !add_members(&mut names, h.value()) {
                proof {
                    lemma_nomination_error(hs, i as int + 1);
                }
                return Err(Http1Error::InvalidHeader);
            }
        }
        i += 1;
    }
    assert(hs.take(i as int) == hs);
    Ok(names)
}

pub fn contains_name(names: &[Vec<char>], name: &[char]) -> (r: bool)
    ensures
        r == char_views(names@).contains(name@),
{
    let mut i: usize = 0;
    assert(char_views(names@).len() == names@.len());
    while i < names.len()
        invariant
            i <= names@.len(),
            forall|j: int| 0 <= j < i ==> (#[trigger] names@[j])@ != name@,
        decreases names.len() - i,
    {
        if text::same_chars(names[i].as_slice(), name) {
            assert(char_views(names@)[i as int] == name@);
            return true;
        }
        i += 1;
    }
    assert forall|j: int| 0 <= j < names@.len() implies char_views(names@)[j] != name@ by {
        assert(names@[j]@ != name@);
    }
    false
}

// ---------------------------------------------------------------------
// Sanitizing
// ---------------------------------------------------------------------

/// Whether a field may be forwarded: it is not private to a hop, to the proxy
/// or to the runtime, and no connection field nominates it.
pub open spec fn is_forwarded(name: Seq<char>, names: Seq<Seq<char>>) -> bool {
    !body::is_private_name(text::lower(name)) && !names.contains(text::lower(name))
}

/// The fields that may be forwarded, in order.
pub open spec fn forwarded(headers: Seq<HeaderView>, names: Seq<Seq<char>>) -> Seq<HeaderView>
    decreases headers.len(),
{
    if headers.len() == 0 {
        Seq::empty()
    } else {
        let before = forwarded(headers.drop_last(), names);
        if is_forwarded(headers.last().name, names) {
            before.push(headers.last())
        } else {
            before
        }
    }
}

pub open spec fn sanitized(headers: Seq<HeaderView>) -> Result<Seq<HeaderView>, Http1Error> {
    match nominated(headers) {
        Err(e) => Err(e),
        Ok(names) => Ok(forwarded(headers, names)),
    }
}

pub open spec fn asks_upgrade(headers: Seq<HeaderView>) -> bool {
    exists|i: int|
        0 <= i < headers.len() && text::eq_ignore_case(
            (#[trigger] headers[i]).name,
            "connection"@,
        ) && has_member(headers[i].value, "upgrade"@)
}

/// A complete WebSocket signal: `upgrade` among the connection options, and a
/// single `Upgrade` field that says `websocket`.
pub open spec fn is_websocket_upgrade(headers: Seq<HeaderView>) -> bool {
    let values = http1::values_of(headers, "upgrade"@);
    &&& asks_upgrade(headers)
    &&& values.len() == 1
    &&& text::eq_ignore_case(values[0], "websocket"@)
}

/// The two hop-by-hop fields of a WebSocket handshake.
pub open spec fn upgrade_fields() -> Seq<HeaderView> {
    seq![
        HeaderView { name: "Connection"@, value: "Upgrade"@ },
        HeaderView { name: "Upgrade"@, value: "websocket"@ },
    ]
}

/// The end-to-end fields of a WebSocket handshake: those that may be forwarded and
/// do not frame a body. `Content-Length` is left out as if it were nominated; the
/// other framing fields are private to a hop.
pub open spec fn handshake_fields(headers: Seq<HeaderView>, names: Seq<Seq<char>>) -> Seq<
    HeaderView,
> {
    forwarded(headers, names.push("content-length"@))
}

pub open spec fn sanitized_upgrade(headers: Seq<HeaderView>) -> Result<
    Seq<HeaderView>,
    Http1Error,
> {
    match nominated(headers) {
        Err(e) => Err(e),
        Ok(names) => if is_websocket_upgrade(headers) {
            Ok(handshake_fields(headers, names) + upgrade_fields())
        } else {
            Err(Http1Error::InvalidHeader)
        },
    }
}

pub open spec fn same_headers(
    r: Result<Vec<Header>, Http1Error>,
    v: Result<Seq<HeaderView>, Http1Error>,
) -> bool {
    match (r, v) {
        (Ok(h), Ok(w)) => http1::header_views(h@) == w,
        (Err(e), Err(f)) => e == f,
        _ => false,
    }
}

fn keep_forwarded(headers: &[Header], names: &[Vec<char>]) -> (r: Vec<Header>)
    ensures
        http1::header_views(r@) == forwarded(http1::header_views(headers@), char_views(names@)),
{
    let ghost hs = http1::header_views(headers@);
    let ghost ns = char_views(names@);
    let mut out: Vec<Header> = Vec::new();
    let mut i: usize = 0;
    assert(http1::header_views(out@) == Seq::<HeaderView>::empty());
    assert(hs.take(0) == Seq::<HeaderView>::empty());
    while i < headers.len()
        invariant
            i <= headers@.len() == hs.len(),
            hs == http1::header_views(headers@),
            ns == char_views(names@),
            http1::header_views(out@) == forwarded(hs.take(i as int), ns),
        decreases headers.len() - i,
    {
        let h = &headers[i];
        proof {
            assert(hs.take(i as int + 1).drop_last() == hs.take(i as int));
            assert(hs[i as int] == h@);
        }
        let low = text::to_lower(h.name());
        let low_chars = text::to_chars(low.as_str());
        if !body::is_private_field(low.as_str()) && !contains_name(names, low_chars.as_slice()) {
            let copy = h.copy();
            proof {
                http1::lemma_header_views_push(out@, copy);
            }
            out.push(copy);
        }
        i += 1;
    }
    assert(hs.take(i as int) == hs);
    out
}

/// Removes proxy credentials, `Proxy-*` and `X-HNS-*` fields, hop-by-hop fields
/// and the fields that connection fields nominate.
pub fn sanitize_forward_headers(headers: &[Header]) -> (r: Result<Vec<Header>, Http1Error>)
    ensures
        same_headers(r, sanitized(http1::header_views(headers@))),
{
    match connection_nominated_fields(headers) {
        Err(e) => Err(e),
        Ok(names) => Ok(keep_forwarded(headers, names.as_slice())),
    }
}

fn check_asks_upgrade(headers: &[Header]) -> (r: bool)
    ensures
        r == asks_upgrade(http1::header_views(headers@)),
{
    let ghost hs = http1::header_views(headers@);
    let mut i: usize = 0;
    while i < headers.len()
        invariant
            i <= headers@.len() == hs.len(),
            hs == http1::header_views(headers@),
            forall|j: int|
                0 <= j < i ==> !(text::eq_ignore_case((#[trigger] hs[j]).name, "connection"@)
                    && has_member(hs[j].value, "upgrade"@)),
        decreases headers.len() - i,
    {
        let h = &headers[i];
        assert(hs[i as int] == h@);
        if text::same_ignore_case(h.name(), "connection") && has_header_token(
            h.value(),
            "upgrade",
        ) {
            return true;
        }
        i += 1;
    }
    false
}

/// Removes all proxy, internal and framing fields from a WebSocket handshake, keeps
/// its end-to-end fields, and writes its two hop-by-hop fields canonically.
pub fn sanitize_upgrade_forward_headers(headers: &[Header]) -> (r: Result<
    Vec<Header>,
    Http1Error,
>)
    ensures
        same_headers(r, sanitized_upgrade(http1::header_views(headers@))),
{
    let mut names = match connection_nominated_fields(headers) {
        Err(e) => {
            return Err(e);
        },
        Ok(names) => names,
    };
    let values = http1::field_values(headers, "upgrade");
    assert(http1::texts(values@).len() == values@.len());
    if !check_asks_upgrade(headers) || values.len() != 1 {
        return Err(Http1Error::InvalidHeader);
    }
    assert(http1::texts(values@)[0] == values@[0]@);
    if !text::same_ignore_case(values[0], "websocket") {
        return Err(Http1Error::InvalidHeader);
    }
    let length = text::to_chars("content-length");
    assert(char_views(names@.push(length)) =~= char_views(names@).push(length@));
    names.push(length);
    let mut out = keep_forwarded(headers, names.as_slice());
    let ghost kept = http1::header_views(out@);
    let connection = Header::with("Connection", "Upgrade");
    let upgrade = Header::with("Upgrade", "websocket");
    proof {
        http1::lemma_header_views_push(out@, connection);
        http1::lemma_header_views_push(out@.push(connection), upgrade);
    }
    out.push(connection);
    out.push(upgrade);
    assert(http1::header_views(out@) == kept + upgrade_fields());
    Ok(out)
}

// ---------------------------------------------------------------------
// Requests to the backend
// ---------------------------------------------------------------------

/// Fields that the proxy writes itself or answers itself.
pub open spec fn is_rewritten(name: Seq<char>) -> bool {
    text::eq_ignore_case(name, "host"@) || text::eq_ignore_case(name, "content-length"@)
        || text::eq_ignore_case(name, "expect"@)
}

pub open spec fn without_rewritten(headers: Seq<HeaderView>) -> Seq<HeaderView>
    decreases headers.len(),
{
    if headers.len() == 0 {
        Seq::empty()
    } else {
        let before = without_rewritten(headers.drop_last());
        if is_rewritten(headers.last().name) {
            before
        } else {
            before.push(headers.last())
        }
    }
}

/// The `Host` value for a canonical host: the port only where it is not the
/// scheme's own.
pub open spec fn host_value(host: Seq<char>, port: u16, scheme: Scheme) -> Seq<char> {
    if port == scheme.port() {
        host
    } else {
        host + seq![':'] + text::decimal(port as nat)
    }
}

pub open spec fn with_host(
    headers: Result<Seq<HeaderView>, Http1Error>,
    host: Seq<char>,
    port: u16,
    scheme: Scheme,
) -> Result<Seq<HeaderView>, Http1Error> {
    match headers {
        Err(e) => Err(e),
        Ok(h) => Ok(
            without_rewritten(h).push(
                HeaderView { name: "Host"@, value: host_value(host, port, scheme) },
            ),
        ),
    }
}

pub open spec fn same_proxy_headers(
    r: Result<Vec<ProxyHeader>, Http1Error>,
    v: Result<Seq<HeaderView>, Http1Error>,
) -> bool {
    match (r, v) {
        (Ok(h), Ok(w)) => backend::proxy_header_views(h@) == w,
        (Err(e), Err(f)) => e == f,
        _ => false,
    }
}

proof fn lemma_proxy_views_push(headers: Seq<ProxyHeader>, h: ProxyHeader)
    ensures
        backend::proxy_header_views(headers.push(h)) == backend::proxy_header_views(headers).push(
            h@,
        ),
{
    assert(backend::proxy_header_views(headers.push(h)) =~= backend::proxy_header_views(
        headers,
    ).push(h@));
}

fn finish_headers(
    sanitized: Vec<Header>,
    host: &str,
    port: u16,
    scheme: Scheme,
) -> (r: Vec<ProxyHeader>)
    ensures
        backend::proxy_header_views(r@) == without_rewritten(
            http1::header_views(sanitized@),
        ).push(HeaderView { name: "Host"@, value: host_value(host@, port, scheme) }),
{
    let ghost hs = http1::header_views(sanitized@);
    let mut out: Vec<ProxyHeader> = Vec::new();
    let mut i: usize = 0;
    assert(backend::proxy_header_views(out@) == Seq::<HeaderView>::empty());
    assert(hs.take(0) == Seq::<HeaderView>::empty());
    while i < sanitized.len()
        invariant
            i <= sanitized@.len() == hs.len(),
            hs == http1::header_views(sanitized@),
            backend::proxy_header_views(out@) == without_rewritten(hs.take(i as int)),
        decreases sanitized.len() - i,
    {
        let h = &sanitized[i];
        proof {
            assert(hs.take(i as int + 1).drop_last() == hs.take(i as int));
            assert(hs[i as int] == h@);
        }
        if !text::same_ignore_case(h.name(), "host") && !text::same_ignore_case(
            h.name(),
            "content-length",
        ) && !text::same_ignore_case(h.name(), "expect") {
            let p = ProxyHeader::new(h.name(), h.value());
            proof {
                lemma_proxy_views_push(out@, p);
            }
            out.push(p);
        }
        i += 1;
    }
    assert(hs.take(i as int) == hs);
    let mut value = text::to_chars(host);
    if port != scheme.default_port() {
        value.push(':');
        let d = text::digits_of(port as u64, 10);
        text::push_chars(&mut value, d.as_slice());
    }
    assert(value@ == host_value(host@, port, scheme));
    let value = text::from_chars(value.as_slice());
    let p = ProxyHeader::new("Host", value.as_str());
    proof {
        lemma_proxy_views_push(out@, p);
    }
    out.push(p);
    out
}

/// The fields of an ordinary request to the backend.
pub fn build_forward_headers(head: &RequestHead, host: &str, port: u16, scheme: Scheme) -> (r:
    Result<Vec<ProxyHeader>, Http1Error>)
    ensures
        same_proxy_headers(r, with_host(sanitized(head@.headers), host@, port, scheme)),
{
    match sanitize_forward_headers(head.headers()) {
        Err(e) => Err(e),
        Ok(h) => Ok(finish_headers(h, host, port, scheme)),
    }
}

/// The fields of a WebSocket handshake to the backend.
pub fn build_upgrade_forward_headers(
    head: &RequestHead,
    host: &str,
    port: u16,
    scheme: Scheme,
) -> (r: Result<Vec<ProxyHeader>, Http1Error>)
    ensures
        same_proxy_headers(r, with_host(sanitized_upgrade(head@.headers), host@, port, scheme)),
{
    match sanitize_upgrade_forward_headers(head.headers()) {
        Err(e) => Err(e),
        Ok(h) => Ok(finish_headers(h, host, port, scheme)),
    }
}

// ---------------------------------------------------------------------
// What a request asks for
// ---------------------------------------------------------------------

/// Whether the client waits for an interim response; any other expectation is
/// refused.
pub open spec fn continue_expected(headers: Seq<HeaderView>) -> Option<bool> {
    let values = http1::values_of(headers, "expect"@);
    if values.len() == 0 {
        Some(false)
    } else if values.len() == 1 && text::eq_ignore_case(values[0], "100-continue"@) {
        Some(true)
    } else {
        None
    }
}

pub fn expects_continue(head: &RequestHead) -> (r: Result<bool, ()>)
    ensures
        match (r, continue_expected(head@.headers)) {
            (Ok(b), Some(v)) => b == v,
            (Err(_), None) => true,
            _ => false,
        },
{
    let values = head.header_values("expect");
    assert(http1::texts(values@).len() == values@.len());
    if values.len() == 0 {
        return Ok(false);
    }
    assert(http1::texts(values@)[0] == values@[0]@);
    if values.len() != 1 || !text::same_ignore_case(values[0], "100-continue") {
        return Err(());
    }
    Ok(true)
}

pub open spec fn upgrade_requested(headers: Seq<HeaderView>) -> bool {
    http1::values_of(headers, "upgrade"@).len() > 0 || asks_upgrade(headers)
}

/// Whether a request asks for another protocol.
pub fn requests_upgrade(head: &RequestHead) -> (r: bool)
    ensures
        r == upgrade_requested(head@.headers),
{
    let values = head.header_values("upgrade");
    assert(http1::texts(values@).len() == values@.len());
    values.len() > 0 || check_asks_upgrade(head.headers())
}

pub open spec fn contains_text(s: Seq<char>, part: Seq<char>) -> bool {
    exists|i: int|
        0 <= i && i + part.len() <= s.len() && #[trigger] s.subrange(i, i + part.len()) == part
}

pub fn text_contains(s: &[char], part: &[char]) -> (r: bool)
    ensures
        r == contains_text(s@, part@),
{
    if part.len() > s.len() {
        return false;
    }
    let n: usize = s.len();
    let last: usize = n - part.len();
    let mut i: usize = 0;
    while i <= last
        invariant
            n == s@.len(),
            last == n - part@.len(),
            i <= last + 1,
            forall|j: int| 0 <= j < i ==> #[trigger] s@.subrange(j, j + part@.len()) != part@,
        decreases last + 1 - i,
    {
        let window = text::chars_between(s, i, i + part.len());
        if text::same_chars(window.as_slice(), part) {
            assert(s@.subrange(i as int, i as int + part@.len()) == part@);
            return true;
        }
        if i == last {
            assert forall|j: int| 0 <= j && j + part@.len() <= s@.len() implies #[trigger] s@.subrange(
                j,
                j + part@.len(),
            ) != part@ by {}
            return false;
        }
        i += 1;
    }
    false
}

/// A conservative guess whether a request loads a page of its own: the fetch
/// destination decides where the browser sends one.
pub open spec fn is_navigation(
    method: Seq<char>,
    headers: Seq<HeaderView>,
    path_and_query: Seq<char>,
) -> bool {
    let destination = http1::values_of(headers, "sec-fetch-dest"@);
    let mode = http1::values_of(headers, "sec-fetch-mode"@);
    let insecure = http1::values_of(headers, "upgrade-insecure-requests"@);
    let accept = http1::values_of(headers, "accept"@);
    if !text::eq_ignore_case(method, "GET"@) && !text::eq_ignore_case(method, "HEAD"@) {
        false
    } else if destination.len() > 0 {
        text::eq_ignore_case(destination[0], "document"@)
    } else {
        ||| mode.len() > 0 && text::eq_ignore_case(mode[0], "navigate"@)
        ||| insecure.len() > 0 && insecure[0] == "1"@
        ||| accept.len() > 0 && contains_text(text::lower(accept[0]), "text/html"@)
        ||| path_and_query == "/"@
    }
}

pub fn is_likely_main_frame_navigation(head: &RequestHead, path_and_query: &str) -> (r: bool)
    ensures
        r == is_navigation(head@.method, head@.headers, path_and_query@),
{
    if !text::same_ignore_case(head.method(), "GET") && !text::same_ignore_case(
        head.method(),
        "HEAD",
    ) {
        return false;
    }
    let destination = head.header_values("sec-fetch-dest");
    assert(http1::texts(destination@).len() == destination@.len());
    if destination.len() > 0 {
        assert(http1::texts(destination@)[0] == destination@[0]@);
        return text::same_ignore_case(destination[0], "document");
    }
    let mode = head.header_values("sec-fetch-mode");
    assert(http1::texts(mode@).len() == mode@.len());
    if mode.len() > 0 {
        assert(http1::texts(mode@)[0] == mode@[0]@);
        if text::same_ignore_case(mode[0], "navigate") {
            return true;
        }
    }
    let insecure = head.header_values("upgrade-insecure-requests");
    assert(http1::texts(insecure@).len() == insecure@.len());
    if insecure.len() > 0 {
        assert(http1::texts(insecure@)[0] == insecure@[0]@);
        if text::same_text(insecure[0], "1") {
            return true;
        }
    }
    let accept = head.header_values("accept");
    assert(http1::texts(accept@).len() == accept@.len());
    if accept.len() > 0 {
        assert(http1::texts(accept@)[0] == accept@[0]@);
        let chars = text::to_chars(accept[0]);
        let low = text::lower_chars(chars.as_slice());
        let html = text::to_chars("text/html");
        if text_contains(low.as_slice(), html.as_slice()) {
            return true;
        }
    }
    text::same_text(path_and_query, "/")
}

// ---------------------------------------------------------------------
// Laws
// ---------------------------------------------------------------------

/// Everything that is forwarded was in the request, and may be forwarded.
pub proof fn forwarded_fields_are_allowed(headers: Seq<HeaderView>, names: Seq<Seq<char>>)
    ensures
        forall|i: int|
            0 <= i < forwarded(headers, names).len() ==> {
                &&& headers.contains(#[trigger] forwarded(headers, names)[i])
                &&& is_forwarded(forwarded(headers, names)[i].name, names)
            },
    decreases headers.len(),
{
    if headers.len() > 0 {
        let rest = headers.drop_last();
        forwarded_fields_are_allowed(rest, names);
        assert forall|i: int| 0 <= i < forwarded(headers, names).len() implies headers.contains(
            #[trigger] forwarded(headers, names)[i],
        ) && is_forwarded(forwarded(headers, names)[i].name, names) by {
            let f = forwarded(headers, names)[i];
            if i < forwarded(rest, names).len() {
                assert(f == forwarded(rest, names)[i]);
                assert(rest.contains(f));
                let j = choose|j: int| 0 <= j < rest.len() && rest[j] == f;
                assert(headers[j] == f);
            } else {
                assert(headers.last() == f);
            }
        }
    }
}

/// Every field that may be forwarded is forwarded.
pub proof fn allowed_fields_are_forwarded(headers: Seq<HeaderView>, names: Seq<Seq<char>>)
    ensures
        forall|i: int|
            0 <= i < headers.len() && is_forwarded((#[trigger] headers[i]).name, names)
                ==> forwarded(headers, names).contains(headers[i]),
    decreases headers.len(),
{
    if headers.len() > 0 {
        let rest = headers.drop_last();
        allowed_fields_are_forwarded(rest, names);
        assert forall|i: int|
            0 <= i < headers.len() && is_forwarded((#[trigger] headers[i]).name, names) implies forwarded(
            headers,
            names,
        ).contains(headers[i]) by {
            let all = forwarded(headers, names);
            if i == rest.len() {
                assert(all.last() == headers[i]);
            } else {
                assert(rest[i] == headers[i]);
                let before = forwarded(rest, names);
                let j = choose|j: int| 0 <= j < before.len() && before[j] == rest[i];
                assert(all[j] == headers[i]);
            }
        }
    }
}

/// A sanitized request carries no proxy credential, no internal field, no
/// hop-by-hop field and no nominated field.
pub proof fn sanitized_requests_are_private(headers: Seq<HeaderView>)
    ensures
        match (sanitized(headers), nominated(headers)) {
            (Ok(kept), Ok(names)) => forall|i: int|
                0 <= i < kept.len() ==> {
                    let low = text::lower((#[trigger] kept[i]).name);
                    &&& !body::is_hop_name(low)
                    &&& !"proxy-"@.is_prefix_of(low)
                    &&& !"x-hns-"@.is_prefix_of(low)
                    &&& !names.contains(low)
                },
            _ => sanitized(headers) is Err,
        },
{
    match nominated(headers) {
        Ok(names) => {
            forwarded_fields_are_allowed(headers, names);
        },
        Err(_) => {},
    }
}

/// A sanitized WebSocket handshake frames no body, and carries no proxy, internal or
/// nominated field but the two that it is signalled with.
pub proof fn sanitized_handshakes_frame_nothing(headers: Seq<HeaderView>)
    ensures
        match (sanitized_upgrade(headers), nominated(headers)) {
            (Ok(kept), Ok(names)) => {
                &&& kept.len() >= 2 && kept.skip(kept.len() - 2) == upgrade_fields()
                &&& forall|i: int|
                    0 <= i < kept.len() - 2 ==> {
                        let low = text::lower((#[trigger] kept[i]).name);
                        &&& low != "content-length"@
                        &&& !body::is_hop_name(low)
                        &&& !"proxy-"@.is_prefix_of(low)
                        &&& !"x-hns-"@.is_prefix_of(low)
                        &&& !names.contains(low)
                    }
            },
            _ => sanitized_upgrade(headers) is Err,
        },
{
    match (sanitized_upgrade(headers), nominated(headers)) {
        (Ok(kept), Ok(names)) => {
            let all = names.push("content-length"@);
            let fields = handshake_fields(headers, names);
            forwarded_fields_are_allowed(headers, all);
            assert(kept.skip(kept.len() - 2) =~= upgrade_fields());
            assert forall|i: int| 0 <= i < kept.len() - 2 implies ({
                let low = text::lower((#[trigger] kept[i]).name);
                !all.contains(low) && !body::is_private_name(low)
            }) by {
                assert(kept[i] == fields[i]);
            }
            assert(all.last() == "content-length"@);
            assert forall|low: Seq<char>| !all.contains(low) implies low != "content-length"@
                && !#[trigger] names.contains(low) by {
                if names.contains(low) {
                    let j = choose|j: int| 0 <= j < names.len() && names[j] == low;
                    assert(all[j] == low);
                }
                if low == "content-length"@ {
                    assert(all[names.len() as int] == low);
                }
            }
        },
        _ => {},
    }
}

/// Whether a Connection or Proxy-Connection field of a request lists a name: between
/// commas, without the whitespace around it, whatever its case.
pub open spec fn is_nominated(headers: Seq<HeaderView>, low: Seq<char>) -> bool {
    exists|i: int, j: int|
        #![trigger headers[i], members(headers[i].value)[j]]
        0 <= i < headers.len() && (text::lower(headers[i].name) == "connection"@ || text::lower(
            headers[i].name,
        ) == "proxy-connection"@) && 0 <= j < members(headers[i].value).len() && text::lower(
            members(headers[i].value)[j],
        ) == low
}

/// The literal names are in lower case.
proof fn lemma_lower_names()
    ensures
        text::lower("connection"@) == "connection"@,
        text::lower("proxy-connection"@) == "proxy-connection"@,
        text::lower("host"@) == "host"@,
        text::lower("content-length"@) == "content-length"@,
        text::lower("expect"@) == "expect"@,
        text::lower("upgrade"@) == "upgrade"@,
        text::lower("websocket"@) == "websocket"@,
        text::lower("Connection"@) == "connection"@,
        text::lower("Upgrade"@) == "upgrade"@,
{
    reveal_strlit("connection");
    reveal_strlit("proxy-connection");
    reveal_strlit("host");
    reveal_strlit("content-length");
    reveal_strlit("expect");
    reveal_strlit("upgrade");
    reveal_strlit("websocket");
    reveal_strlit("Connection");
    reveal_strlit("Upgrade");
    assert(text::lower("connection"@) =~= "connection"@);
    assert(text::lower("proxy-connection"@) =~= "proxy-connection"@);
    assert(text::lower("host"@) =~= "host"@);
    assert(text::lower("content-length"@) =~= "content-length"@);
    assert(text::lower("expect"@) =~= "expect"@);
    assert(text::lower("upgrade"@) =~= "upgrade"@);
    assert(text::lower("websocket"@) =~= "websocket"@);
    assert(text::lower("Connection"@) =~= "connection"@);
    assert(text::lower("Upgrade"@) =~= "upgrade"@);
}

proof fn lemma_nominated(headers: Seq<HeaderView>, low: Seq<char>)
    requires
        nominated(headers) is Ok,
    ensures
        nominated(headers)->Ok_0.contains(low) <==> is_nominated(headers, low),
    decreases headers.len(),
{
    lemma_lower_names();
    if headers.len() > 0 {
        let rest = headers.drop_last();
        let last = headers.last();
        lemma_nominated(rest, low);
        let before = nominated(rest)->Ok_0;
        let all = nominated(headers)->Ok_0;
        let more = lower_all(members(last.value));
        if is_nominated(rest, low) {
            let (i, j) = choose|i: int, j: int|
                #![trigger rest[i], members(rest[i].value)[j]]
                0 <= i < rest.len() && (text::lower(rest[i].name) == "connection"@ || text::lower(
                    rest[i].name,
                ) == "proxy-connection"@) && 0 <= j < members(rest[i].value).len() && text::lower(
                    members(rest[i].value)[j],
                ) == low;
            assert(headers[i] == rest[i]);
            assert(text::lower(members(headers[i].value)[j]) == low);
            assert(is_nominated(headers, low));
        }
        if nominates(last.name) {
            assert(all == before + more);
            if all.contains(low) {
                let k = choose|k: int| 0 <= k < all.len() && all[k] == low;
                if k < before.len() {
                    assert(before[k] == low);
                    assert(before.contains(low));
                } else {
                    let j = k - before.len();
                    assert(more[j] == low);
                    assert(headers[headers.len() - 1] == last);
                    assert(text::lower(members(headers[headers.len() - 1].value)[j]) == low);
                    assert(is_nominated(headers, low));
                }
            }
            if before.contains(low) {
                let k = choose|k: int| 0 <= k < before.len() && before[k] == low;
                assert(all[k] == low);
            }
        }
        if is_nominated(headers, low) {
            let (i, j) = choose|i: int, j: int|
                #![trigger headers[i], members(headers[i].value)[j]]
                0 <= i < headers.len() && (text::lower(headers[i].name) == "connection"@
                    || text::lower(headers[i].name) == "proxy-connection"@) && 0 <= j < members(
                    headers[i].value,
                ).len() && text::lower(members(headers[i].value)[j]) == low;
            if i < rest.len() {
                assert(rest[i] == headers[i]);
                assert(text::lower(members(rest[i].value)[j]) == low);
                assert(is_nominated(rest, low));
            } else {
                assert(headers[i] == last);
                assert(nominates(last.name));
                assert(more[j] == low);
                assert(all[before.len() + j] == low);
            }
        }
    }
}

proof fn lemma_private(low: Seq<char>)
    ensures
        body::is_private_name(low) <==> {
            ||| low == "connection"@
            ||| low == "keep-alive"@
            ||| low == "proxy-authenticate"@
            ||| low == "proxy-authorization"@
            ||| low == "proxy-connection"@
            ||| low == "te"@
            ||| low == "trailer"@
            ||| low == "transfer-encoding"@
            ||| low == "upgrade"@
            ||| "proxy-"@.is_prefix_of(low)
            ||| "x-hns-"@.is_prefix_of(low)
        },
{
    let names = body::hop_by_hop_names();
    assert(names.len() == 9);
    assert(names[0] == "connection"@);
    assert(names[1] == "keep-alive"@);
    assert(names[2] == "proxy-authenticate"@);
    assert(names[3] == "proxy-authorization"@);
    assert(names[4] == "proxy-connection"@);
    assert(names[5] == "te"@);
    assert(names[6] == "trailer"@);
    assert(names[7] == "transfer-encoding"@);
    assert(names[8] == "upgrade"@);
}

/// Requests with fields that list names are sanitized exactly where all that is listed
/// are tokens.
pub proof fn lists_of_tokens_are_sanitized(headers: Seq<HeaderView>)
    ensures
        sanitized(headers) is Ok <==> forall|i: int|
            0 <= i < headers.len() && (text::lower((#[trigger] headers[i]).name) == "connection"@
                || text::lower(headers[i].name) == "proxy-connection"@) ==> all_tokens(
                members(headers[i].value),
            ),
        sanitized(headers) matches Err(e) ==> e == Http1Error::InvalidHeader,
    decreases headers.len(),
{
    lemma_lower_names();
    if headers.len() > 0 {
        let rest = headers.drop_last();
        lists_of_tokens_are_sanitized(rest);
        assert(headers[headers.len() - 1] == headers.last());
        if sanitized(rest) is Err {
            let i = choose|i: int|
                0 <= i < rest.len() && (text::lower((#[trigger] rest[i]).name) == "connection"@
                    || text::lower(rest[i].name) == "proxy-connection"@) && !all_tokens(
                    members(rest[i].value),
                );
            assert(headers[i] == rest[i]);
        } else {
            assert forall|i: int|
                0 <= i < rest.len() && (text::lower((#[trigger] headers[i]).name) == "connection"@
                    || text::lower(headers[i].name) == "proxy-connection"@) implies all_tokens(
                members(headers[i].value),
            ) by {
                assert(headers[i] == rest[i]);
            }
        }
    }
}

/// The fields of a sanitized request are those of the request, in order and unchanged, but
/// for the nine hop-by-hop fields, the proxy's, the internal ones, and those that its own
/// fields list.
pub proof fn sanitized_requests_keep_the_rest(headers: Seq<HeaderView>)
    requires
        sanitized(headers) is Ok,
    ensures
        sanitized(headers)->Ok_0 == headers.filter(
            |h: HeaderView| {
                let low = text::lower(h.name);
                &&& low != "connection"@
                &&& low != "keep-alive"@
                &&& low != "proxy-authenticate"@
                &&& low != "proxy-authorization"@
                &&& low != "proxy-connection"@
                &&& low != "te"@
                &&& low != "trailer"@
                &&& low != "transfer-encoding"@
                &&& low != "upgrade"@
                &&& !"proxy-"@.is_prefix_of(low) && !"x-hns-"@.is_prefix_of(low)
                &&& !is_nominated(headers, low)
            },
        ),
{
    let names = nominated(headers)->Ok_0;
    let keep = |h: HeaderView| {
        let low = text::lower(h.name);
        &&& low != "connection"@
        &&& low != "keep-alive"@
        &&& low != "proxy-authenticate"@
        &&& low != "proxy-authorization"@
        &&& low != "proxy-connection"@
        &&& low != "te"@
        &&& low != "trailer"@
        &&& low != "transfer-encoding"@
        &&& low != "upgrade"@
        &&& !"proxy-"@.is_prefix_of(low) && !"x-hns-"@.is_prefix_of(low)
        &&& !is_nominated(headers, low)
    };
    assert forall|h: HeaderView| keep(h) == #[trigger] is_forwarded(h.name, names) by {
        lemma_private(text::lower(h.name));
        lemma_nominated(headers, text::lower(h.name));
    }
    lemma_forwarded_is_filter(headers, names, keep);
}

proof fn lemma_forwarded_is_filter(
    headers: Seq<HeaderView>,
    names: Seq<Seq<char>>,
    keep: spec_fn(HeaderView) -> bool,
)
    requires
        forall|h: HeaderView| keep(h) == #[trigger] is_forwarded(h.name, names),
    ensures
        forwarded(headers, names) == headers.filter(keep),
    decreases headers.len(),
{
    reveal(Seq::filter);
    if headers.len() > 0 {
        lemma_forwarded_is_filter(headers.drop_last(), names, keep);
        assert(keep(headers.last()) == is_forwarded(headers.last().name, names));
    } else {
        assert(headers.filter(keep) =~= Seq::empty());
    }
}

proof fn lemma_without_rewritten_is_filter(
    headers: Seq<HeaderView>,
    keep: spec_fn(HeaderView) -> bool,
    both: spec_fn(HeaderView) -> bool,
)
    requires
        forall|h: HeaderView| #[trigger] both(h) == (keep(h) && !is_rewritten(h.name)),
    ensures
        without_rewritten(headers.filter(keep)) == headers.filter(both),
    decreases headers.len(),
{
    reveal(Seq::filter);
    if headers.len() > 0 {
        let rest = headers.drop_last();
        let last = headers.last();
        lemma_without_rewritten_is_filter(rest, keep, both);
        assert(both(last) == (keep(last) && !is_rewritten(last.name)));
        if keep(last) {
            let kept = headers.filter(keep);
            assert(kept =~= rest.filter(keep).push(last));
            assert(kept.drop_last() =~= rest.filter(keep));
        }
    } else {
        assert(headers.filter(keep) =~= Seq::empty());
        assert(headers.filter(both) =~= Seq::empty());
    }
}

/// The backend gets the fields of the request in order and unchanged, but for those that
/// are no business of an origin and for Host, Content-Length and Expect, and after them
/// one Host field, with the port where it is not that of the scheme. So every other field
/// of a request reaches the origin.
pub proof fn requests_reach_the_backend(
    headers: Seq<HeaderView>,
    host: Seq<char>,
    port: u16,
    scheme: Scheme,
)
    requires
        sanitized(headers) is Ok,
    ensures
        with_host(sanitized(headers), host, port, scheme) == Ok::<Seq<HeaderView>, Http1Error>(
            headers.filter(
                |h: HeaderView| {
                    let low = text::lower(h.name);
                    &&& low != "connection"@
                    &&& low != "keep-alive"@
                    &&& low != "proxy-authenticate"@
                    &&& low != "proxy-authorization"@
                    &&& low != "proxy-connection"@
                    &&& low != "te"@
                    &&& low != "trailer"@
                    &&& low != "transfer-encoding"@
                    &&& low != "upgrade"@
                    &&& low != "host"@
                    &&& low != "content-length"@
                    &&& low != "expect"@
                    &&& !"proxy-"@.is_prefix_of(low) && !"x-hns-"@.is_prefix_of(low)
                    &&& !is_nominated(headers, low)
                },
            ).push(
                HeaderView {
                    name: "Host"@,
                    value: if ((scheme is Http || scheme is Ws) && port == 80) || ((scheme is Https
                        || scheme is Wss) && port == 443) {
                        host
                    } else {
                        host + seq![':'] + text::decimal(port as nat)
                    },
                },
            ),
        ),
{
    let names = nominated(headers)->Ok_0;
    let keep = |h: HeaderView| is_forwarded(h.name, names);
    let both = |h: HeaderView| {
        let low = text::lower(h.name);
        &&& low != "connection"@
        &&& low != "keep-alive"@
        &&& low != "proxy-authenticate"@
        &&& low != "proxy-authorization"@
        &&& low != "proxy-connection"@
        &&& low != "te"@
        &&& low != "trailer"@
        &&& low != "transfer-encoding"@
        &&& low != "upgrade"@
        &&& low != "host"@
        &&& low != "content-length"@
        &&& low != "expect"@
        &&& !"proxy-"@.is_prefix_of(low) && !"x-hns-"@.is_prefix_of(low)
        &&& !is_nominated(headers, low)
    };
    lemma_lower_names();
    assert forall|h: HeaderView| #[trigger] both(h) == (keep(h) && !is_rewritten(h.name)) by {
        lemma_private(text::lower(h.name));
        lemma_nominated(headers, text::lower(h.name));
    }
    lemma_forwarded_is_filter(headers, names, keep);
    lemma_without_rewritten_is_filter(headers, keep, both);
}

proof fn lemma_without_rewritten_concat(a: Seq<HeaderView>, b: Seq<HeaderView>)
    requires
        forall|i: int| 0 <= i < b.len() ==> !is_rewritten((#[trigger] b[i]).name),
    ensures
        without_rewritten(a + b) == without_rewritten(a) + b,
    decreases b.len(),
{
    if b.len() == 0 {
        assert(a + b =~= a);
        assert(without_rewritten(a) + b =~= without_rewritten(a));
    } else {
        let front = b.drop_last();
        assert forall|i: int| 0 <= i < front.len() implies !is_rewritten(
            (#[trigger] front[i]).name,
        ) by {
            assert(front[i] == b[i]);
        }
        lemma_without_rewritten_concat(a, front);
        assert((a + b).drop_last() =~= a + front);
        assert((a + b).last() == b.last() && b[b.len() - 1] == b.last());
        assert((without_rewritten(a) + front).push(b.last()) =~= without_rewritten(a) + b);
    }
}

/// A WebSocket handshake is one whose Connection asks for an upgrade and that names
/// websocket, and nothing else, once. The backend gets its fields in order and unchanged,
/// but for those that are no business of an origin and for Host, Content-Length and
/// Expect; then the two fields that signal the handshake, and one Host field. A request
/// that is no such handshake is refused.
pub proof fn handshakes_reach_the_backend(
    headers: Seq<HeaderView>,
    host: Seq<char>,
    port: u16,
    scheme: Scheme,
)
    requires
        sanitized(headers) is Ok,
    ensures
        ({
            let upgrades = headers.filter(|h: HeaderView| text::lower(h.name) == "upgrade"@);
            &&& upgrades.len() == 1
            &&& text::lower(upgrades[0].value) == "websocket"@
            &&& exists|i: int, j: int|
                #![trigger headers[i], members(headers[i].value)[j]]
                0 <= i < headers.len() && text::lower(headers[i].name) == "connection"@ && 0 <= j
                    < members(headers[i].value).len() && text::lower(members(headers[i].value)[j])
                    == "upgrade"@
        }) <==> sanitized_upgrade(headers) is Ok,
        sanitized_upgrade(headers) matches Err(e) ==> e == Http1Error::InvalidHeader,
        sanitized_upgrade(headers) is Ok ==> with_host(
            sanitized_upgrade(headers),
            host,
            port,
            scheme,
        ) == Ok::<Seq<HeaderView>, Http1Error>(
            headers.filter(
                |h: HeaderView| {
                    let low = text::lower(h.name);
                    &&& low != "connection"@
                    &&& low != "keep-alive"@
                    &&& low != "proxy-authenticate"@
                    &&& low != "proxy-authorization"@
                    &&& low != "proxy-connection"@
                    &&& low != "te"@
                    &&& low != "trailer"@
                    &&& low != "transfer-encoding"@
                    &&& low != "upgrade"@
                    &&& low != "host"@
                    &&& low != "content-length"@
                    &&& low != "expect"@
                    &&& !"proxy-"@.is_prefix_of(low) && !"x-hns-"@.is_prefix_of(low)
                    &&& !is_nominated(headers, low)
                },
            ) + seq![
                HeaderView { name: "Connection"@, value: "Upgrade"@ },
                HeaderView { name: "Upgrade"@, value: "websocket"@ },
                HeaderView {
                    name: "Host"@,
                    value: if ((scheme is Http || scheme is Ws) && port == 80) || ((scheme is Https
                        || scheme is Wss) && port == 443) {
                        host
                    } else {
                        host + seq![':'] + text::decimal(port as nat)
                    },
                },
            ],
        ),
{
    let names = nominated(headers)->Ok_0;
    let all = names.push("content-length"@);
    let keep = |h: HeaderView| is_forwarded(h.name, all);
    let both = |h: HeaderView| {
        let low = text::lower(h.name);
        &&& low != "connection"@
        &&& low != "keep-alive"@
        &&& low != "proxy-authenticate"@
        &&& low != "proxy-authorization"@
        &&& low != "proxy-connection"@
        &&& low != "te"@
        &&& low != "trailer"@
        &&& low != "transfer-encoding"@
        &&& low != "upgrade"@
        &&& low != "host"@
        &&& low != "content-length"@
        &&& low != "expect"@
        &&& !"proxy-"@.is_prefix_of(low) && !"x-hns-"@.is_prefix_of(low)
        &&& !is_nominated(headers, low)
    };
    lemma_lower_names();
    assert forall|h: HeaderView| #[trigger] both(h) == (keep(h) && !is_rewritten(h.name)) by {
        let low = text::lower(h.name);
        lemma_private(low);
        lemma_nominated(headers, low);
        assert(all.contains(low) <==> names.contains(low) || low == "content-length"@) by {
            if names.contains(low) {
                let k = choose|k: int| 0 <= k < names.len() && names[k] == low;
                assert(all[k] == low);
            }
            assert(all[names.len() as int] == "content-length"@);
        }
    }
    lemma_forwarded_is_filter(headers, all, keep);
    lemma_without_rewritten_is_filter(headers, keep, both);
    let fields = upgrade_fields();
    assert forall|i: int| 0 <= i < fields.len() implies !is_rewritten(
        (#[trigger] fields[i]).name,
    ) by {
        reveal_strlit("connection");
        reveal_strlit("upgrade");
        reveal_strlit("host");
        reveal_strlit("content-length");
        reveal_strlit("expect");
    }
    lemma_without_rewritten_concat(handshake_fields(headers, names), fields);
    let host_field = HeaderView { name: "Host"@, value: host_value(host, port, scheme) };
    assert((headers.filter(both) + fields).push(host_field) =~= headers.filter(both) + seq![
        fields[0],
        fields[1],
        host_field,
    ]);
    let named = |h: HeaderView| text::lower(h.name) == text::lower("upgrade"@);
    let upgrading = |h: HeaderView| text::lower(h.name) == "upgrade"@;
    http1::values_are_found_by_name(headers, "upgrade"@);
    assert(named =~= upgrading);
    let upgrades = headers.filter(upgrading);
    assert(http1::values_of(headers, "upgrade"@).len() == upgrades.len());
    if upgrades.len() == 1 {
        assert(http1::values_of(headers, "upgrade"@)[0] == upgrades[0].value);
    }
    if asks_upgrade(headers) {
        let i = choose|i: int|
            0 <= i < headers.len() && text::eq_ignore_case(
                (#[trigger] headers[i]).name,
                "connection"@,
            ) && has_member(headers[i].value, "upgrade"@);
        let j = choose|j: int|
            0 <= j < members(headers[i].value).len() && text::eq_ignore_case(
                #[trigger] members(headers[i].value)[j],
                "upgrade"@,
            );
        assert(text::lower(members(headers[i].value)[j]) == "upgrade"@);
    }
    if exists|i: int, j: int|
        #![trigger headers[i], members(headers[i].value)[j]]
        0 <= i < headers.len() && text::lower(headers[i].name) == "connection"@ && 0 <= j < members(
            headers[i].value,
        ).len() && text::lower(members(headers[i].value)[j]) == "upgrade"@ {
        let (i, j) = choose|i: int, j: int|
            #![trigger headers[i], members(headers[i].value)[j]]
            0 <= i < headers.len() && text::lower(headers[i].name) == "connection"@ && 0 <= j
                < members(headers[i].value).len() && text::lower(members(headers[i].value)[j])
                == "upgrade"@;
        assert(text::eq_ignore_case(members(headers[i].value)[j], "upgrade"@));
        assert(has_member(headers[i].value, "upgrade"@));
    }
}

/// An interim response is waited for where the one Expect field asks for it; more than one,
/// or another expectation, cannot be met.
pub proof fn only_the_interim_response_is_expected(headers: Seq<HeaderView>)
    ensures
        ({
            let expects = headers.filter(|h: HeaderView| text::lower(h.name) == "expect"@);
            &&& continue_expected(headers) == Some(false) <==> expects.len() == 0
            &&& continue_expected(headers) == Some(true) <==> expects.len() == 1 && text::lower(
                expects[0].value,
            ) == "100-continue"@
        }),
{
    let expects = headers.filter(|h: HeaderView| text::lower(h.name) == "expect"@);
    lemma_lower_names();
    reveal_strlit("100-continue");
    assert(text::lower("100-continue"@) =~= "100-continue"@);
    http1::values_are_found_by_name(headers, "expect"@);
    assert((|h: HeaderView| text::lower(h.name) == text::lower("expect"@)) =~= (|h: HeaderView|
        text::lower(h.name) == "expect"@));
    assert(http1::values_of(headers, "expect"@).len() == expects.len());
    if expects.len() == 1 {
        assert(http1::values_of(headers, "expect"@)[0] == expects[0].value);
    }
}

/// An upgrade is asked for by any Upgrade field, and by any Connection field that lists
/// it; by nothing else.
pub proof fn upgrades_are_asked_for_by_field(headers: Seq<HeaderView>)
    ensures
        upgrade_requested(headers) <==> {
            ||| exists|i: int|
                0 <= i < headers.len() && text::lower((#[trigger] headers[i]).name) == "upgrade"@
            ||| exists|i: int, j: int|
                #![trigger headers[i], members(headers[i].value)[j]]
                0 <= i < headers.len() && text::lower(headers[i].name) == "connection"@ && 0 <= j
                    < members(headers[i].value).len() && text::lower(members(headers[i].value)[j])
                    == "upgrade"@
        },
{
    lemma_lower_names();
    lemma_named_values(headers, "upgrade"@);
    if asks_upgrade(headers) {
        let i = choose|i: int|
            0 <= i < headers.len() && text::eq_ignore_case(
                (#[trigger] headers[i]).name,
                "connection"@,
            ) && has_member(headers[i].value, "upgrade"@);
        let j = choose|j: int|
            0 <= j < members(headers[i].value).len() && text::eq_ignore_case(
                #[trigger] members(headers[i].value)[j],
                "upgrade"@,
            );
        assert(text::lower(members(headers[i].value)[j]) == "upgrade"@);
    }
    if exists|i: int, j: int|
        #![trigger headers[i], members(headers[i].value)[j]]
        0 <= i < headers.len() && text::lower(headers[i].name) == "connection"@ && 0 <= j < members(
            headers[i].value,
        ).len() && text::lower(members(headers[i].value)[j]) == "upgrade"@ {
        let (i, j) = choose|i: int, j: int|
            #![trigger headers[i], members(headers[i].value)[j]]
            0 <= i < headers.len() && text::lower(headers[i].name) == "connection"@ && 0 <= j
                < members(headers[i].value).len() && text::lower(members(headers[i].value)[j])
                == "upgrade"@;
        assert(text::eq_ignore_case(members(headers[i].value)[j], "upgrade"@));
        assert(has_member(headers[i].value, "upgrade"@));
    }
}

proof fn lemma_named_values(headers: Seq<HeaderView>, name: Seq<char>)
    requires
        text::lower(name) == name,
    ensures
        http1::values_of(headers, name).len() > 0 <==> exists|i: int|
            0 <= i < headers.len() && text::lower((#[trigger] headers[i]).name) == name,
    decreases headers.len(),
{
    if headers.len() > 0 {
        let rest = headers.drop_last();
        lemma_named_values(rest, name);
        assert(headers[headers.len() - 1] == headers.last());
        if http1::values_of(rest, name).len() > 0 {
            let i = choose|i: int|
                0 <= i < rest.len() && text::lower((#[trigger] rest[i]).name) == name;
            assert(headers[i] == rest[i]);
        }
        if exists|i: int|
            0 <= i < headers.len() && text::lower((#[trigger] headers[i]).name) == name {
            let i = choose|i: int|
                0 <= i < headers.len() && text::lower((#[trigger] headers[i]).name) == name;
            if i < rest.len() {
                assert(rest[i] == headers[i]);
            }
        }
    }
}

/// A request is taken for a navigation of the main frame only where it is a GET or HEAD.
/// Its destination decides where it has one; otherwise any of these is enough: the mode
/// is to navigate, secure requests are asked for, HTML is accepted, or the path is the
/// root.
pub proof fn navigations_are_told_by_their_fields(
    method: Seq<char>,
    headers: Seq<HeaderView>,
    path: Seq<char>,
)
    ensures
        ({
            let first = |name: Seq<char>|
                headers.filter(|h: HeaderView| text::lower(h.name) == name);
            let destination = first("sec-fetch-dest"@);
            let mode = first("sec-fetch-mode"@);
            let insecure = first("upgrade-insecure-requests"@);
            let accept = first("accept"@);
            &&& text::lower(method) != "get"@ && text::lower(method) != "head"@ ==> !is_navigation(
                method,
                headers,
                path,
            )
            &&& text::lower(method) == "get"@ || text::lower(method) == "head"@ ==> (
            is_navigation(method, headers, path) <==> if destination.len() > 0 {
                text::lower(destination[0].value) == "document"@
            } else {
                ||| path == "/"@
                ||| mode.len() > 0 && text::lower(mode[0].value) == "navigate"@
                ||| insecure.len() > 0 && insecure[0].value == "1"@
                ||| accept.len() > 0 && exists|a: Seq<char>, b: Seq<char>|
                    text::lower(accept[0].value) == #[trigger] (a + "text/html"@ + b)
            })
        }),
{
    reveal_strlit("sec-fetch-dest");
    assert(text::lower("sec-fetch-dest"@) =~= "sec-fetch-dest"@);
    reveal_strlit("sec-fetch-mode");
    assert(text::lower("sec-fetch-mode"@) =~= "sec-fetch-mode"@);
    reveal_strlit("upgrade-insecure-requests");
    assert(text::lower("upgrade-insecure-requests"@) =~= "upgrade-insecure-requests"@);
    reveal_strlit("accept");
    assert(text::lower("accept"@) =~= "accept"@);
    reveal_strlit("document");
    assert(text::lower("document"@) =~= "document"@);
    reveal_strlit("navigate");
    assert(text::lower("navigate"@) =~= "navigate"@);
    reveal_strlit("GET");
    reveal_strlit("HEAD");
    reveal_strlit("get");
    reveal_strlit("head");
    assert(text::lower("GET"@) =~= "get"@);
    assert(text::lower("HEAD"@) =~= "head"@);
    lemma_first_value(headers, "sec-fetch-dest"@);
    lemma_first_value(headers, "sec-fetch-mode"@);
    lemma_first_value(headers, "upgrade-insecure-requests"@);
    lemma_first_value(headers, "accept"@);
    let accept = headers.filter(|h: HeaderView| text::lower(h.name) == "accept"@);
    if accept.len() > 0 {
        lemma_contains_text(text::lower(accept[0].value), "text/html"@);
    }
}

proof fn lemma_first_value(headers: Seq<HeaderView>, name: Seq<char>)
    requires
        text::lower(name) == name,
    ensures
        ({
            let fields = headers.filter(|h: HeaderView| text::lower(h.name) == name);
            &&& http1::values_of(headers, name).len() == fields.len()
            &&& fields.len() > 0 ==> http1::values_of(headers, name)[0] == fields[0].value
        }),
{
    http1::values_are_found_by_name(headers, name);
    assert((|h: HeaderView| text::lower(h.name) == text::lower(name)) =~= (|h: HeaderView|
        text::lower(h.name) == name));
}

proof fn lemma_contains_text(s: Seq<char>, part: Seq<char>)
    ensures
        contains_text(s, part) <==> exists|a: Seq<char>, b: Seq<char>|
            s == #[trigger] (a + part + b),
{
    if contains_text(s, part) {
        let i = choose|i: int|
            0 <= i && i + part.len() <= s.len() && #[trigger] s.subrange(i, i + part.len()) == part;
        let (a, b) = (s.take(i), s.skip(i + part.len()));
        assert forall|k: int| 0 <= k < s.len() implies s[k] == (a + part + b)[k] by {
            if i <= k < i + part.len() {
                assert(s.subrange(i, i + part.len())[k - i] == s[k]);
            }
        }
        assert(s =~= a + part + b);
    }
    if exists|a: Seq<char>, b: Seq<char>| s == #[trigger] (a + part + b) {
        let (a, b) = choose|a: Seq<char>, b: Seq<char>| s == #[trigger] (a + part + b);
        let i = a.len() as int;
        assert(s.subrange(i, i + part.len()) =~= part);
    }
}

/// Fields that are sanitized are those that are meant, and so is a fault.
pub proof fn sanitized_fields_agree(
    r: Result<Vec<Header>, Http1Error>,
    v: Result<Seq<HeaderView>, Http1Error>,
)
    ensures
        same_headers(r, v) <==> {
            &&& r is Ok <==> v is Ok
            &&& r is Ok ==> http1::header_views(r->Ok_0@) == v->Ok_0
            &&& r is Err ==> r->Err_0 == v->Err_0
        },
{
}

/// Fields that are handed on are those that are meant, and so is a fault.
pub proof fn finished_fields_agree(
    r: Result<Vec<ProxyHeader>, Http1Error>,
    v: Result<Seq<HeaderView>, Http1Error>,
)
    ensures
        same_proxy_headers(r, v) <==> {
            &&& r is Ok <==> v is Ok
            &&& r is Ok ==> backend::proxy_header_views(r->Ok_0@) == v->Ok_0
            &&& r is Err ==> r->Err_0 == v->Err_0
        },
{
}

/// The fields of a request are handed on as they are sanitized, with the host that was
/// admitted; what a request asks for is what its fields say.
pub proof fn fields_are_handed_on(
    head: &RequestHead,
    host: &str,
    port: u16,
    scheme: Scheme,
    plain: Result<Vec<ProxyHeader>, Http1Error>,
    upgraded: Result<Vec<ProxyHeader>, Http1Error>,
    expects: Result<bool, ()>,
    upgrades: bool,
    path: &str,
    navigates: bool,
)
    requires
        call_ensures(build_forward_headers, (head, host, port, scheme), plain),
        call_ensures(build_upgrade_forward_headers, (head, host, port, scheme), upgraded),
        call_ensures(expects_continue, (head,), expects),
        call_ensures(requests_upgrade, (head,), upgrades),
        call_ensures(is_likely_main_frame_navigation, (head, path), navigates),
    ensures
        same_proxy_headers(plain, with_host(sanitized(head@.headers), host@, port, scheme)),
        same_proxy_headers(
            upgraded,
            with_host(sanitized_upgrade(head@.headers), host@, port, scheme),
        ),
        expects is Ok <==> continue_expected(head@.headers) is Some,
        expects is Ok ==> Some(expects->Ok_0) == continue_expected(head@.headers),
        upgrades == upgrade_requested(head@.headers),
        navigates == is_navigation(head@.method, head@.headers, path@),
{
}

} // verus!

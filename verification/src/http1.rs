//! Strict, bounded HTTP/1 request heads for the loopback proxy.
//!
//! A head is taken from the connection one byte at a time, so that nothing
//! past its terminating empty line is ever consumed.

use crate::target;
use crate::target::{Authority, AuthorityView, RequestTarget, RequestTargetView};
use crate::text;
use vstd::prelude::*;

verus! {

pub const DEFAULT_MAX_REQUEST_HEAD_BYTES: usize = 65536;

pub const DEFAULT_MAX_REQUEST_BODY_BYTES: u64 = 1048576;

pub const MAX_REQUEST_HEADERS: usize = 256;

/// How a read or write on a connection failed.
#[derive(Clone, Copy, Debug, PartialEq, Eq, Structural)]
pub enum IoKind {
    NotFound,
    PermissionDenied,
    ConnectionRefused,
    ConnectionReset,
    HostUnreachable,
    NetworkUnreachable,
    ConnectionAborted,
    NotConnected,
    AddrInUse,
    AddrNotAvailable,
    NetworkDown,
    BrokenPipe,
    AlreadyExists,
    WouldBlock,
    NotADirectory,
    IsADirectory,
    DirectoryNotEmpty,
    ReadOnlyFilesystem,
    StaleNetworkFileHandle,
    InvalidInput,
    InvalidData,
    TimedOut,
    WriteZero,
    StorageFull,
    NotSeekable,
    QuotaExceeded,
    FileTooLarge,
    ResourceBusy,
    ExecutableFileBusy,
    Deadlock,
    CrossesDevices,
    TooManyLinks,
    InvalidFilename,
    ArgumentListTooLong,
    Interrupted,
    Unsupported,
    UnexpectedEof,
    OutOfMemory,
    Other,
    /// A failure of the system that none of the other kinds is for.
    Uncategorized,
}

pub open spec fn io_kind_name(kind: IoKind) -> Seq<char> {
    match kind {
        IoKind::NotFound => "NotFound"@,
        IoKind::PermissionDenied => "PermissionDenied"@,
        IoKind::ConnectionRefused => "ConnectionRefused"@,
        IoKind::ConnectionReset => "ConnectionReset"@,
        IoKind::HostUnreachable => "HostUnreachable"@,
        IoKind::NetworkUnreachable => "NetworkUnreachable"@,
        IoKind::ConnectionAborted => "ConnectionAborted"@,
        IoKind::NotConnected => "NotConnected"@,
        IoKind::AddrInUse => "AddrInUse"@,
        IoKind::AddrNotAvailable => "AddrNotAvailable"@,
        IoKind::NetworkDown => "NetworkDown"@,
        IoKind::BrokenPipe => "BrokenPipe"@,
        IoKind::AlreadyExists => "AlreadyExists"@,
        IoKind::WouldBlock => "WouldBlock"@,
        IoKind::NotADirectory => "NotADirectory"@,
        IoKind::IsADirectory => "IsADirectory"@,
        IoKind::DirectoryNotEmpty => "DirectoryNotEmpty"@,
        IoKind::ReadOnlyFilesystem => "ReadOnlyFilesystem"@,
        IoKind::StaleNetworkFileHandle => "StaleNetworkFileHandle"@,
        IoKind::InvalidInput => "InvalidInput"@,
        IoKind::InvalidData => "InvalidData"@,
        IoKind::TimedOut => "TimedOut"@,
        IoKind::WriteZero => "WriteZero"@,
        IoKind::StorageFull => "StorageFull"@,
        IoKind::NotSeekable => "NotSeekable"@,
        IoKind::QuotaExceeded => "QuotaExceeded"@,
        IoKind::FileTooLarge => "FileTooLarge"@,
        IoKind::ResourceBusy => "ResourceBusy"@,
        IoKind::ExecutableFileBusy => "ExecutableFileBusy"@,
        IoKind::Deadlock => "Deadlock"@,
        IoKind::CrossesDevices => "CrossesDevices"@,
        IoKind::TooManyLinks => "TooManyLinks"@,
        IoKind::InvalidFilename => "InvalidFilename"@,
        IoKind::ArgumentListTooLong => "ArgumentListTooLong"@,
        IoKind::Interrupted => "Interrupted"@,
        IoKind::Unsupported => "Unsupported"@,
        IoKind::UnexpectedEof => "UnexpectedEof"@,
        IoKind::OutOfMemory => "OutOfMemory"@,
        IoKind::Other => "Other"@,
        IoKind::Uncategorized => "Uncategorized"@,
    }
}

impl IoKind {
    /// The name of the kind.
    pub fn name(&self) -> (r: &'static str)
        ensures
            r@ == io_kind_name(*self),
    {
        match self {
            IoKind::NotFound => "NotFound",
            IoKind::PermissionDenied => "PermissionDenied",
            IoKind::ConnectionRefused => "ConnectionRefused",
            IoKind::ConnectionReset => "ConnectionReset",
            IoKind::HostUnreachable => "HostUnreachable",
            IoKind::NetworkUnreachable => "NetworkUnreachable",
            IoKind::ConnectionAborted => "ConnectionAborted",
            IoKind::NotConnected => "NotConnected",
            IoKind::AddrInUse => "AddrInUse",
            IoKind::AddrNotAvailable => "AddrNotAvailable",
            IoKind::NetworkDown => "NetworkDown",
            IoKind::BrokenPipe => "BrokenPipe",
            IoKind::AlreadyExists => "AlreadyExists",
            IoKind::WouldBlock => "WouldBlock",
            IoKind::NotADirectory => "NotADirectory",
            IoKind::IsADirectory => "IsADirectory",
            IoKind::DirectoryNotEmpty => "DirectoryNotEmpty",
            IoKind::ReadOnlyFilesystem => "ReadOnlyFilesystem",
            IoKind::StaleNetworkFileHandle => "StaleNetworkFileHandle",
            IoKind::InvalidInput => "InvalidInput",
            IoKind::InvalidData => "InvalidData",
            IoKind::TimedOut => "TimedOut",
            IoKind::WriteZero => "WriteZero",
            IoKind::StorageFull => "StorageFull",
            IoKind::NotSeekable => "NotSeekable",
            IoKind::QuotaExceeded => "QuotaExceeded",
            IoKind::FileTooLarge => "FileTooLarge",
            IoKind::ResourceBusy => "ResourceBusy",
            IoKind::ExecutableFileBusy => "ExecutableFileBusy",
            IoKind::Deadlock => "Deadlock",
            IoKind::CrossesDevices => "CrossesDevices",
            IoKind::TooManyLinks => "TooManyLinks",
            IoKind::InvalidFilename => "InvalidFilename",
            IoKind::ArgumentListTooLong => "ArgumentListTooLong",
            IoKind::Interrupted => "Interrupted",
            IoKind::Unsupported => "Unsupported",
            IoKind::UnexpectedEof => "UnexpectedEof",
            IoKind::OutOfMemory => "OutOfMemory",
            IoKind::Other => "Other",
            IoKind::Uncategorized => "Uncategorized",
        }
    }
}

#[derive(Clone, Copy, Debug, PartialEq, Eq, Structural)]
pub enum Http1Error {
    /// The connection failed.
    Io(IoKind),
    UnexpectedEof,
    HeadTooLarge,
    TooManyHeaders,
    InvalidRequestLine,
    UnsupportedHttpVersion,
    InvalidHeader,
    DuplicateProxyAuthorization,
    InvalidTarget,
    InvalidAuthority,
    TargetMismatch,
    MissingHost,
    HostMismatch,
    InvalidContentLength,
    AmbiguousFraming,
    UnsupportedTransferEncoding,
    BodyTooLarge,
    UnexpectedBodyEof,
    InvalidChunkedBody,
    TrailersTooLarge,
}

pub open spec fn status_code_of(e: Http1Error) -> u16 {
    match e {
        Http1Error::HeadTooLarge | Http1Error::TooManyHeaders => 431,
        Http1Error::BodyTooLarge => 413,
        Http1Error::UnsupportedTransferEncoding => 501,
        _ => 400,
    }
}

pub open spec fn reason_phrase_of(e: Http1Error) -> Seq<char> {
    match e {
        Http1Error::HeadTooLarge
        | Http1Error::TooManyHeaders => "Request Header Fields Too Large"@,
        Http1Error::BodyTooLarge => "Payload Too Large"@,
        Http1Error::UnsupportedTransferEncoding => "Transfer Encoding Unsupported"@,
        Http1Error::InvalidContentLength => "Bad Content-Length"@,
        Http1Error::AmbiguousFraming => "Bad Request Framing"@,
        Http1Error::MissingHost | Http1Error::HostMismatch => "HNS Host Header Mismatch"@,
        Http1Error::TargetMismatch => "HNS Request Mismatch"@,
        _ => "Bad Request"@,
    }
}

impl Http1Error {
    /// The status of the response that reports this error.
    pub fn status_code(&self) -> (r: u16)
        ensures
            r == status_code_of(*self),
    {
        match self {
            Http1Error::HeadTooLarge | Http1Error::TooManyHeaders => 431,
            Http1Error::BodyTooLarge => 413,
            Http1Error::UnsupportedTransferEncoding => 501,
            _ => 400,
        }
    }

    /// The reason phrase of the response that reports this error.
    pub fn reason_phrase(&self) -> (r: &'static str)
        ensures
            r@ == reason_phrase_of(*self),
    {
        match self {
            Http1Error::HeadTooLarge
            | Http1Error::TooManyHeaders => "Request Header Fields Too Large",
            Http1Error::BodyTooLarge => "Payload Too Large",
            Http1Error::UnsupportedTransferEncoding => "Transfer Encoding Unsupported",
            Http1Error::InvalidContentLength => "Bad Content-Length",
            Http1Error::AmbiguousFraming => "Bad Request Framing",
            Http1Error::MissingHost | Http1Error::HostMismatch => "HNS Host Header Mismatch",
            Http1Error::TargetMismatch => "HNS Request Mismatch",
            _ => "Bad Request",
        }
    }

    /// What went wrong, in words.
    pub fn message(&self) -> (r: &'static str)
        ensures
            r@ == message_of(*self),
    {
        match self {
            Http1Error::Io(_) => "request I/O failed",
            Http1Error::UnexpectedEof => "request ended before it was complete",
            Http1Error::HeadTooLarge => "request head is too large",
            Http1Error::TooManyHeaders => "request has too many headers",
            Http1Error::InvalidRequestLine => "invalid HTTP request line",
            Http1Error::UnsupportedHttpVersion => "unsupported HTTP version",
            Http1Error::InvalidHeader => "invalid HTTP request header",
            Http1Error::DuplicateProxyAuthorization => "duplicate Proxy-Authorization header",
            Http1Error::InvalidTarget => "invalid request target",
            Http1Error::InvalidAuthority => "invalid request authority",
            Http1Error::TargetMismatch => "request target does not match the CONNECT authority",
            Http1Error::MissingHost => "Host header is required",
            Http1Error::HostMismatch => "Host header does not match the request target",
            Http1Error::InvalidContentLength => "invalid or duplicate Content-Length",
            Http1Error::AmbiguousFraming => "ambiguous HTTP request body framing",
            Http1Error::UnsupportedTransferEncoding => "unsupported Transfer-Encoding",
            Http1Error::BodyTooLarge => "request body is too large",
            Http1Error::UnexpectedBodyEof => "request body ended before it was complete",
            Http1Error::InvalidChunkedBody => "invalid chunked request body",
            Http1Error::TrailersTooLarge => "chunked request trailers are too large",
        }
    }
}

pub open spec fn message_of(e: Http1Error) -> Seq<char> {
    match e {
        Http1Error::Io(_) => "request I/O failed"@,
        Http1Error::UnexpectedEof => "request ended before it was complete"@,
        Http1Error::HeadTooLarge => "request head is too large"@,
        Http1Error::TooManyHeaders => "request has too many headers"@,
        Http1Error::InvalidRequestLine => "invalid HTTP request line"@,
        Http1Error::UnsupportedHttpVersion => "unsupported HTTP version"@,
        Http1Error::InvalidHeader => "invalid HTTP request header"@,
        Http1Error::DuplicateProxyAuthorization => "duplicate Proxy-Authorization header"@,
        Http1Error::InvalidTarget => "invalid request target"@,
        Http1Error::InvalidAuthority => "invalid request authority"@,
        Http1Error::TargetMismatch => "request target does not match the CONNECT authority"@,
        Http1Error::MissingHost => "Host header is required"@,
        Http1Error::HostMismatch => "Host header does not match the request target"@,
        Http1Error::InvalidContentLength => "invalid or duplicate Content-Length"@,
        Http1Error::AmbiguousFraming => "ambiguous HTTP request body framing"@,
        Http1Error::UnsupportedTransferEncoding => "unsupported Transfer-Encoding"@,
        Http1Error::BodyTooLarge => "request body is too large"@,
        Http1Error::UnexpectedBodyEof => "request body ended before it was complete"@,
        Http1Error::InvalidChunkedBody => "invalid chunked request body"@,
        Http1Error::TrailersTooLarge => "chunked request trailers are too large"@,
    }
}

#[derive(Clone, Copy, Debug, PartialEq, Eq, Structural)]
pub enum HttpVersion {
    Http10,
    Http11,
}

impl HttpVersion {
    pub fn as_str(self) -> (r: &'static str)
        ensures
            r@ == (match self {
                HttpVersion::Http10 => "HTTP/1.0"@,
                HttpVersion::Http11 => "HTTP/1.1"@,
            }),
    {
        match self {
            HttpVersion::Http10 => "HTTP/1.0",
            HttpVersion::Http11 => "HTTP/1.1",
        }
    }
}

// ---------------------------------------------------------------------
// Header fields
// ---------------------------------------------------------------------

/// One header field of a request.
#[derive(Clone, PartialEq, Eq)]
pub struct Header {
    name: String,
    value: String,
}

#[verifier::ext_equal]
pub struct HeaderView {
    pub name: Seq<char>,
    pub value: Seq<char>,
}

impl View for Header {
    type V = HeaderView;

    closed spec fn view(&self) -> HeaderView {
        HeaderView { name: self.name@, value: self.value@ }
    }
}

pub open spec fn header_views(headers: Seq<Header>) -> Seq<HeaderView> {
    headers.map_values(|h: Header| h@)
}

pub proof fn lemma_header_views_push(headers: Seq<Header>, h: Header)
    ensures
        header_views(headers.push(h)) == header_views(headers).push(h@),
{
    assert(header_views(headers.push(h)) =~= header_views(headers).push(h@));
}

/// Which bytes may stand in an HTTP token.
pub open spec fn is_token_byte(b: u8) -> bool {
    let c = b as char;
    ||| text::is_alphanumeric(c)
    ||| c == '!'
    ||| c == '#'
    ||| c == '$'
    ||| c == '%'
    ||| c == '&'
    ||| c == '\''
    ||| c == '*'
    ||| c == '+'
    ||| c == '-'
    ||| c == '.'
    ||| c == '^'
    ||| c == '_'
    ||| c == '`'
    ||| c == '|'
    ||| c == '~'
}

pub open spec fn is_token(v: Seq<u8>) -> bool {
    v.len() > 0 && forall|i: int| 0 <= i < v.len() ==> is_token_byte(#[trigger] v[i])
}

/// Which bytes may stand in a field value: tab and printable ASCII.
pub open spec fn is_value_byte(b: u8) -> bool {
    b == 9 || 0x20 <= b <= 0x7e
}

pub open spec fn is_field_value(v: Seq<u8>) -> bool {
    forall|i: int| 0 <= i < v.len() ==> is_value_byte(#[trigger] v[i])
}

pub open spec fn is_ows(b: u8) -> bool {
    b == 0x20 || b == 9
}

/// The value without optional whitespace around it.
pub open spec fn trimmed(v: Seq<u8>) -> Seq<u8> {
    text::trim_where(v, |b: u8| is_ows(b))
}

pub fn byte_is_token(b: u8) -> (r: bool)
    ensures
        r == is_token_byte(b),
{
    let c = b as char;
    text::char_is_alphanumeric(c) || c == '!' || c == '#' || c == '$' || c == '%' || c == '&' || c
        == '\'' || c == '*' || c == '+' || c == '-' || c == '.' || c == '^' || c == '_' || c == '`'
        || c == '|' || c == '~'
}

/// Whether the bytes are an HTTP token.
pub fn is_http_token(value: &[u8]) -> (r: bool)
    ensures
        r == is_token(value@),
{
    if value.len() == 0 {
        return false;
    }
    let mut i: usize = 0;
    while i < value.len()
        invariant
            i <= value@.len(),
            forall|j: int| 0 <= j < i ==> is_token_byte(#[trigger] value@[j]),
        decreases value.len() - i,
    {
        if !byte_is_token(value[i]) {
            return false;
        }
        i += 1;
    }
    true
}

/// Whether the bytes may be a field value.
pub fn is_valid_field_value(value: &[u8]) -> (r: bool)
    ensures
        r == is_field_value(value@),
{
    let mut i: usize = 0;
    while i < value.len()
        invariant
            i <= value@.len(),
            forall|j: int| 0 <= j < i ==> is_value_byte(#[trigger] value@[j]),
        decreases value.len() - i,
    {
        let b: u8 = value[i];
        if !(b == 9 || (0x20 <= b && b <= 0x7e)) {
            return false;
        }
        i += 1;
    }
    true
}

/// Removes optional whitespace from both ends.
pub fn trim_ows(value: &[u8]) -> (r: Vec<u8>)
    ensures
        r@ == trimmed(value@),
{
    let ghost blank = |b: u8| is_ows(b);
    let mut from: usize = 0;
    assert(value@.skip(0) == value@);
    while from < value.len() && (value[from] == 0x20 || value[from] == 9)
        invariant
            from <= value@.len(),
            blank == (|b: u8| is_ows(b)),
            text::trim_start(value@, blank) == text::trim_start(value@.skip(from as int), blank),
        decreases value.len() - from,
    {
        assert(value@.skip(from as int).drop_first() == value@.skip(from as int + 1));
        from += 1;
    }
    let ghost rest = value@.skip(from as int);
    assert(text::trim_start(value@, blank) == rest);
    let mut to: usize = value.len();
    assert(value@.subrange(from as int, to as int) == rest);
    while from < to && (value[to - 1] == 0x20 || value[to - 1] == 9)
        invariant
            from <= to <= value@.len(),
            blank == (|b: u8| is_ows(b)),
            text::trim_end(rest, blank) == text::trim_end(
                value@.subrange(from as int, to as int),
                blank,
            ),
        decreases to,
    {
        assert(value@.subrange(from as int, to as int).drop_last() == value@.subrange(
            from as int,
            to as int - 1,
        ));
        to -= 1;
    }
    text::bytes_between(value, from, to)
}

/// The field that a line without its line end holds: a token, a colon and a
/// value. Continuation lines are refused.
pub open spec fn header_line(line: Seq<u8>) -> Option<HeaderView> {
    let colon = text::find(line, ':' as u8);
    if line.len() == 0 || is_ows(line[0]) || colon == line.len() {
        None
    } else {
        let name = line.take(colon);
        let value = trimmed(line.skip(colon + 1));
        if is_token(name) && is_field_value(value) {
            Some(HeaderView { name: text::ascii_chars(name), value: text::ascii_chars(value) })
        } else {
            None
        }
    }
}

/// Parses one header line.
pub fn parse_header_line(line: &[u8]) -> (r: Option<Header>)
    ensures
        match (r, header_line(line@)) {
            (Some(h), Some(v)) => h@ == v,
            (None, None) => true,
            _ => false,
        },
{
    if line.len() == 0 || line[0] == 0x20 || line[0] == 9 {
        return None;
    }
    let colon: usize = text::find_byte(line, ':' as u8);
    if colon == line.len() {
        return None;
    }
    let name = text::bytes_between(line, 0, colon);
    let after = text::bytes_between(line, colon + 1, line.len());
    assert(name@ == line@.take(colon as int));
    assert(after@ == line@.skip(colon as int + 1));
    let value = trim_ows(after.as_slice());
    if is_http_token(name.as_slice()) && is_valid_field_value(value.as_slice()) {
        Some(Header {
            name: text::from_ascii(name.as_slice()),
            value: text::from_ascii(value.as_slice()),
        })
    } else {
        None
    }
}

impl Header {
    pub fn name(&self) -> (r: &str)
        ensures
            r@ == self@.name,
    {
        self.name.as_str()
    }

    pub fn value(&self) -> (r: &str)
        ensures
            r@ == self@.value,
    {
        self.value.as_str()
    }

    pub(crate) fn copy(&self) -> (r: Header)
        ensures
            r@ == self@,
    {
        Header { name: self.name.clone(), value: self.value.clone() }
    }

    pub(crate) fn with(name: &str, value: &str) -> (r: Header)
        ensures
            r@ == (HeaderView { name: name@, value: value@ }),
    {
        Header { name: name.to_owned(), value: value.to_owned() }
    }

    /// A diagnostic description that withholds the value.
    pub fn describe(&self) -> (r: String)
        ensures
            r@ == "Header { name: \""@ + self@.name + "\", value: \"<redacted>\", value_len: "@
                + text::decimal(vstd::utf8::encode_utf8(self@.value).len() as usize as nat) + " }"@,
    {
        let mut v = text::to_chars("Header { name: \"");
        text::push_str(&mut v, self.name.as_str());
        text::push_str(&mut v, "\", value: \"<redacted>\", value_len: ");
        let n: usize = self.value.as_str().len();
        let d = text::digits_of(n as u64, 10);
        text::push_chars(&mut v, d.as_slice());
        text::push_str(&mut v, " }");
        text::from_chars(v.as_slice())
    }
}


// ---------------------------------------------------------------------
// Request line
// ---------------------------------------------------------------------

#[verifier::ext_equal]
pub struct RequestLineView {
    pub method: Seq<char>,
    pub target: Seq<char>,
    pub version: HttpVersion,
}

pub open spec fn is_ascii_bytes(bytes: Seq<u8>) -> bool {
    forall|i: int| 0 <= i < bytes.len() ==> #[trigger] bytes[i] < 0x80
}

pub open spec fn is_visible(bytes: Seq<u8>) -> bool {
    forall|i: int| 0 <= i < bytes.len() ==> 0x21 <= #[trigger] bytes[i] <= 0x7e
}

pub open spec fn version_of(bytes: Seq<u8>) -> Result<HttpVersion, Http1Error> {
    let v = text::ascii_chars(bytes);
    if v == "HTTP/1.0"@ {
        Ok(HttpVersion::Http10)
    } else if v == "HTTP/1.1"@ {
        Ok(HttpVersion::Http11)
    } else if "HTTP/"@.is_prefix_of(v) {
        Err(Http1Error::UnsupportedHttpVersion)
    } else {
        Err(Http1Error::InvalidRequestLine)
    }
}

/// Method, target and version, separated by single spaces.
pub open spec fn request_line(bytes: Seq<u8>) -> Result<RequestLineView, Http1Error> {
    let p = text::split(bytes, 0x20u8);
    if !is_ascii_bytes(bytes) || bytes.contains(9u8) || p.len() != 3 || !is_token(p[0])
        || p[1].len() == 0 || !is_visible(p[1]) {
        Err(Http1Error::InvalidRequestLine)
    } else {
        match version_of(p[2]) {
            Ok(version) => Ok(
                RequestLineView {
                    method: text::ascii_chars(p[0]),
                    target: text::ascii_chars(p[1]),
                    version,
                },
            ),
            Err(e) => Err(e),
        }
    }
}

fn parse_version(bytes: &[u8]) -> (r: Result<HttpVersion, Http1Error>)
    ensures
        r == version_of(bytes@),
{
    if text::bytes_are(bytes, "HTTP/1.0") {
        Ok(HttpVersion::Http10)
    } else if text::bytes_are(bytes, "HTTP/1.1") {
        Ok(HttpVersion::Http11)
    } else if text::bytes_start_with(bytes, "HTTP/") {
        Err(Http1Error::UnsupportedHttpVersion)
    } else {
        Err(Http1Error::InvalidRequestLine)
    }
}

fn all_ascii(bytes: &[u8]) -> (r: bool)
    ensures
        r == is_ascii_bytes(bytes@),
{
    let mut i: usize = 0;
    while i < bytes.len()
        invariant
            i <= bytes@.len(),
            forall|j: int| 0 <= j < i ==> #[trigger] bytes@[j] < 0x80,
        decreases bytes.len() - i,
    {
        if bytes[i] >= 0x80 {
            return false;
        }
        i += 1;
    }
    true
}

fn all_visible(bytes: &[u8]) -> (r: bool)
    ensures
        r == is_visible(bytes@),
{
    let mut i: usize = 0;
    while i < bytes.len()
        invariant
            i <= bytes@.len(),
            forall|j: int| 0 <= j < i ==> 0x21 <= #[trigger] bytes@[j] <= 0x7e,
        decreases bytes.len() - i,
    {
        if bytes[i] < 0x21 || bytes[i] > 0x7e {
            return false;
        }
        i += 1;
    }
    true
}

/// Method, target and version of a request line.
pub struct RequestLine {
    pub method: String,
    pub target: String,
    pub version: HttpVersion,
}

impl View for RequestLine {
    type V = RequestLineView;

    open spec fn view(&self) -> RequestLineView {
        RequestLineView { method: self.method@, target: self.target@, version: self.version }
    }
}

/// Parses a request line without its line end.
pub fn parse_request_line(bytes: &[u8]) -> (r: Result<RequestLine, Http1Error>)
    ensures
        match (r, request_line(bytes@)) {
            (Ok(l), Ok(v)) => l@ == v,
            (Err(e), Err(f)) => e == f,
            _ => false,
        },
{
    let tab: usize = text::find_byte(bytes, 9);
    proof {
        text::lemma_find_bounds(bytes@, 9u8);
    }
    if !all_ascii(bytes) || tab < bytes.len() {
        return Err(Http1Error::InvalidRequestLine);
    }
    let p = text::split_bytes(bytes, 0x20);
    let ghost ps = text::split(bytes@, 0x20u8);
    assert(p@.map_values(|q: Vec<u8>| q@).len() == p@.len());
    if p.len() != 3 {
        return Err(Http1Error::InvalidRequestLine);
    }
    assert(p@.map_values(|q: Vec<u8>| q@)[0] == p@[0]@);
    assert(p@.map_values(|q: Vec<u8>| q@)[1] == p@[1]@);
    assert(p@.map_values(|q: Vec<u8>| q@)[2] == p@[2]@);
    if !is_http_token(p[0].as_slice()) || p[1].len() == 0 || !all_visible(p[1].as_slice()) {
        return Err(Http1Error::InvalidRequestLine);
    }
    match parse_version(p[2].as_slice()) {
        Ok(version) => Ok(
            RequestLine {
                method: text::from_ascii(p[0].as_slice()),
                target: text::from_ascii(p[1].as_slice()),
                version,
            },
        ),
        Err(e) => Err(e),
    }
}

// ---------------------------------------------------------------------
// Header block
// ---------------------------------------------------------------------

/// What one line feed-terminated line of the block holds: nothing, a field, or
/// something that is refused.
pub enum BlockLine {
    Empty,
    Field(HeaderView),
    Refused,
}

pub open spec fn block_line(raw: Seq<u8>) -> BlockLine {
    if raw.len() == 0 {
        BlockLine::Empty
    } else if raw.last() != '\r' as u8 {
        BlockLine::Refused
    } else {
        match header_line(raw.drop_last()) {
            Some(h) => BlockLine::Field(h),
            None => BlockLine::Refused,
        }
    }
}

/// The fields of the lines, in order; the first line that is refused, or the
/// first field past the limit, decides the error.
pub open spec fn block_fields(lines: Seq<Seq<u8>>) -> Result<Seq<HeaderView>, Http1Error>
    decreases lines.len(),
{
    if lines.len() == 0 {
        Ok(Seq::empty())
    } else {
        match block_fields(lines.drop_last()) {
            Err(e) => Err(e),
            Ok(fields) => match block_line(lines.last()) {
                BlockLine::Empty => Ok(fields),
                BlockLine::Refused => Err(Http1Error::InvalidHeader),
                BlockLine::Field(h) => if fields.len() == MAX_REQUEST_HEADERS {
                    Err(Http1Error::TooManyHeaders)
                } else {
                    Ok(fields.push(h))
                },
            },
        }
    }
}

/// The fields of a header block, whose lines all end in a line feed.
pub open spec fn header_block(bytes: Seq<u8>) -> Result<Seq<HeaderView>, Http1Error> {
    block_fields(text::split(bytes, '\n' as u8))
}

proof fn lemma_block_error_persists(lines: Seq<Seq<u8>>, i: int)
    requires
        0 <= i <= lines.len(),
        block_fields(lines.take(i)) is Err,
    ensures
        block_fields(lines) == block_fields(lines.take(i)),
    decreases lines.len() - i,
{
    if i == lines.len() {
        assert(lines.take(i) == lines);
    } else {
        assert(lines.take(i + 1).drop_last() == lines.take(i));
        lemma_block_error_persists(lines, i + 1);
    }
}

/// Parses the header block of a request.
pub fn parse_header_block(bytes: &[u8]) -> (r: Result<Vec<Header>, Http1Error>)
    ensures
        match (r, header_block(bytes@)) {
            (Ok(h), Ok(v)) => header_views(h@) == v,
            (Err(e), Err(f)) => e == f,
            _ => false,
        },
{
    let lines = text::split_bytes(bytes, '\n' as u8);
    let ghost ls = text::split(bytes@, '\n' as u8);
    let mut headers: Vec<Header> = Vec::new();
    let mut i: usize = 0;
    assert(lines@.map_values(|q: Vec<u8>| q@).len() == lines@.len());
    assert(header_views(headers@) == Seq::<HeaderView>::empty());
    while i < lines.len()
        invariant
            i <= lines@.len(),
            lines@.map_values(|q: Vec<u8>| q@) == ls,
            ls.len() == lines@.len(),
            ls == text::split(bytes@, '\n' as u8),
            block_fields(ls.take(i as int)) == Ok::<Seq<HeaderView>, Http1Error>(
                header_views(headers@),
            ),
        decreases lines.len() - i,
    {
        let raw = &lines[i];
        proof {
            assert(lines@.map_values(|q: Vec<u8>| q@)[i as int] == lines@[i as int]@);
            assert(ls.take(i as int + 1).drop_last() == ls.take(i as int));
            assert(ls.take(i as int + 1).last() == raw@);
            assert(header_views(headers@).len() == headers@.len());
        }
        if raw.len() > 0 {
            if raw[raw.len() - 1] != '\r' as u8 {
                proof {
                    lemma_block_error_persists(ls, i as int + 1);
                }
                return Err(Http1Error::InvalidHeader);
            }
            let line = text::bytes_between(raw.as_slice(), 0, raw.len() - 1);
            assert(line@ == raw@.drop_last());
            match parse_header_line(line.as_slice()) {
                None => {
                    proof {
                        lemma_block_error_persists(ls, i as int + 1);
                    }
                    return Err(Http1Error::InvalidHeader);
                },
                Some(h) => {
                    if headers.len() == MAX_REQUEST_HEADERS {
                        proof {
                            lemma_block_error_persists(ls, i as int + 1);
                        }
                        return Err(Http1Error::TooManyHeaders);
                    }
                    proof {
                        lemma_header_views_push(headers@, h);
                    }
                    headers.push(h);
                },
            }
        }
        i += 1;
    }
    assert(ls.take(i as int) == ls);
    Ok(headers)
}

// ---------------------------------------------------------------------
// Request head
// ---------------------------------------------------------------------

/// Whether the empty line that ends a head begins at `i`, line end included.
pub open spec fn is_head_end(s: Seq<u8>, i: int) -> bool {
    &&& 0 <= i
    &&& i + 4 <= s.len()
    &&& s[i] == 0x0d
    &&& s[i + 1] == 0x0a
    &&& s[i + 2] == 0x0d
    &&& s[i + 3] == 0x0a
}

/// Where the first head at or after `i` ends.
pub open spec fn head_end_from(s: Seq<u8>, i: int) -> Option<int>
    decreases s.len() - i,
{
    if i + 4 > s.len() {
        None
    } else if is_head_end(s, i) {
        Some(i + 4)
    } else {
        head_end_from(s, i + 1)
    }
}

pub open spec fn head_end(s: Seq<u8>) -> Option<int> {
    head_end_from(s, 0)
}

/// Where the first carriage return and line feed at or after `i` stand.
pub open spec fn crlf_from(s: Seq<u8>, i: int) -> Option<int>
    decreases s.len() - i,
{
    if i + 2 > s.len() {
        None
    } else if s[i] == 0x0d && s[i + 1] == 0x0a {
        Some(i)
    } else {
        crlf_from(s, i + 1)
    }
}

/// Every carriage return is followed, and every line feed preceded, by the
/// other.
pub open spec fn has_paired_line_ends(s: Seq<u8>) -> bool {
    forall|i: int|
        #![trigger s[i]]
        0 <= i < s.len() ==> {
            &&& s[i] == 0x0d ==> i + 1 < s.len() && s[i + 1] == 0x0a
            &&& s[i] == 0x0a ==> i > 0 && s[i - 1] == 0x0d
        }
}

pub fn find_head_end(bytes: &[u8]) -> (r: Option<usize>)
    ensures
        match r {
            Some(e) => head_end(bytes@) == Some(e as int) && 4 <= e <= bytes@.len(),
            None => head_end(bytes@) is None,
        },
{
    let mut i: usize = 0;
    while bytes.len() >= 4 && i <= bytes.len() - 4
        invariant
            bytes@.len() >= 4 ==> i <= bytes@.len() - 3,
            bytes@.len() < 4 ==> i == 0,
            head_end(bytes@) == head_end_from(bytes@, i as int),
        decreases bytes.len() - i,
    {
        if bytes[i] == 0x0d && bytes[i + 1] == 0x0a && bytes[i + 2] == 0x0d && bytes[i + 3]
            == 0x0a {
            return Some(i + 4);
        }
        i += 1;
    }
    None
}

fn find_crlf(bytes: &[u8]) -> (r: Option<usize>)
    ensures
        match r {
            Some(e) => crlf_from(bytes@, 0) == Some(e as int) && e + 2 <= bytes@.len(),
            None => crlf_from(bytes@, 0) is None,
        },
{
    let mut i: usize = 0;
    while bytes.len() >= 2 && i <= bytes.len() - 2
        invariant
            bytes@.len() >= 2 ==> i <= bytes@.len() - 1,
            bytes@.len() < 2 ==> i == 0,
            crlf_from(bytes@, 0) == crlf_from(bytes@, i as int),
        decreases bytes.len() - i,
    {
        if bytes[i] == 0x0d && bytes[i + 1] == 0x0a {
            return Some(i);
        }
        i += 1;
    }
    None
}

/// Whether carriage returns and line feeds occur in pairs only.
pub fn validate_crlf(bytes: &[u8]) -> (r: Result<(), Http1Error>)
    ensures
        r == (if has_paired_line_ends(bytes@) {
            Ok::<(), Http1Error>(())
        } else {
            Err(Http1Error::InvalidHeader)
        }),
{
    let mut i: usize = 0;
    while i < bytes.len()
        invariant
            i <= bytes@.len(),
            forall|j: int|
                #![trigger bytes@[j]]
                0 <= j < i ==> {
                    &&& bytes@[j] == 0x0d ==> j + 1 < bytes@.len() && bytes@[j + 1] == 0x0a
                    &&& bytes@[j] == 0x0a ==> j > 0 && bytes@[j - 1] == 0x0d
                },
        decreases bytes.len() - i,
    {
        let b: u8 = bytes[i];
        if b == 0x0d && (i + 1 >= bytes.len() || bytes[i + 1] != 0x0a) {
            assert(bytes@[i as int] == 0x0d);
            return Err(Http1Error::InvalidHeader);
        }
        if b == 0x0a && (i == 0 || bytes[i - 1] != 0x0d) {
            assert(bytes@[i as int] == 0x0a);
            return Err(Http1Error::InvalidHeader);
        }
        i += 1;
    }
    Ok(())
}

/// What the independent request parser made of a head.
#[derive(Clone, Debug, PartialEq, Eq)]
pub enum ParsedRequest {
    Partial,
    TooManyHeaders,
    Invalid,
    Complete {
        length: usize,
        method: Option<String>,
        path: Option<String>,
        version: Option<u8>,
        headers: usize,
    },
}

#[verifier::ext_equal]
pub enum ParsedRequestView {
    Partial,
    TooManyHeaders,
    Invalid,
    Complete {
        length: usize,
        method: Option<Seq<char>>,
        path: Option<Seq<char>>,
        version: Option<u8>,
        headers: usize,
    },
}

pub open spec fn text_of(s: Option<String>) -> Option<Seq<char>> {
    match s {
        Some(t) => Some(t@),
        None => None,
    }
}

impl View for ParsedRequest {
    type V = ParsedRequestView;

    open spec fn view(&self) -> ParsedRequestView {
        match *self {
            ParsedRequest::Partial => ParsedRequestView::Partial,
            ParsedRequest::TooManyHeaders => ParsedRequestView::TooManyHeaders,
            ParsedRequest::Invalid => ParsedRequestView::Invalid,
            ParsedRequest::Complete { length, method, path, version, headers } =>
                ParsedRequestView::Complete {
                length,
                method: text_of(method),
                path: text_of(path),
                version,
                headers,
            },
        }
    }
}

/// What `httparse::Request::parse` gives for the bytes with room for so many
/// header fields.
pub uninterp spec fn httparse_outcome(bytes: Seq<u8>, max_headers: usize) -> ParsedRequestView;

/// Calls `httparse::Request::parse` on the bytes, with room for `max_headers`
/// fields. The outcome is a function of these two alone; nothing else is
/// claimed of it.
#[verifier::external_body]
fn httparse_request(bytes: &[u8], max_headers: usize) -> (r: ParsedRequest)
    requires
        max_headers <= MAX_REQUEST_HEADERS,
    ensures
        r@ == httparse_outcome(bytes@, max_headers),
{
    let mut fields = vec![httparse::EMPTY_HEADER; max_headers];
    let mut request = httparse::Request::new(&mut fields);
    match request.parse(bytes) {
        Ok(httparse::Status::Complete(length)) => ParsedRequest::Complete {
            length,
            method: request.method.map(|m| m.to_owned()),
            path: request.path.map(|p| p.to_owned()),
            version: request.version,
            headers: request.headers.len(),
        },
        Ok(httparse::Status::Partial) => ParsedRequest::Partial,
        Err(httparse::Error::TooManyHeaders) => ParsedRequest::TooManyHeaders,
        Err(_) => ParsedRequest::Invalid,
    }
}

/// The head of one request.
#[derive(Clone, PartialEq, Eq)]
pub struct RequestHead {
    method: String,
    target: String,
    version: HttpVersion,
    headers: Vec<Header>,
}

#[verifier::ext_equal]
pub struct RequestHeadView {
    pub method: Seq<char>,
    pub target: Seq<char>,
    pub version: HttpVersion,
    pub headers: Seq<HeaderView>,
}

impl View for RequestHead {
    type V = RequestHeadView;

    closed spec fn view(&self) -> RequestHeadView {
        RequestHeadView {
            method: self.method@,
            target: self.target@,
            version: self.version,
            headers: header_views(self.headers@),
        }
    }
}

/// The request line of a head, and where it ends: the checks that do not need
/// a second parser.
pub open spec fn strict_request_line(bytes: Seq<u8>) -> Result<(RequestLineView, int), Http1Error> {
    if bytes.len() > DEFAULT_MAX_REQUEST_HEAD_BYTES {
        Err(Http1Error::HeadTooLarge)
    } else {
        match (head_end(bytes), crlf_from(bytes, 0)) {
            (None, _) => Err(Http1Error::UnexpectedEof),
            (Some(e), line_end) => if e != bytes.len() || !has_paired_line_ends(bytes) {
                Err(Http1Error::InvalidHeader)
            } else {
                match line_end {
                    None => Err(Http1Error::InvalidRequestLine),
                    Some(k) => match request_line(bytes.take(k)) {
                        Err(e) => Err(e),
                        Ok(line) => Ok((line, k)),
                    },
                }
            },
        }
    }
}

pub open spec fn parsed_version(v: Option<u8>) -> Option<HttpVersion> {
    match v {
        Some(n) => if n == 0 {
            Some(HttpVersion::Http10)
        } else if n == 1 {
            Some(HttpVersion::Http11)
        } else {
            None
        },
        None => None,
    }
}

/// The head, given what the second parser made of the same bytes: both must
/// agree on method, target, version, extent and number of fields.
pub open spec fn agreed_head(
    bytes: Seq<u8>,
    line: RequestLineView,
    line_end: int,
    parsed: ParsedRequestView,
) -> Result<RequestHeadView, Http1Error> {
    match parsed {
        ParsedRequestView::Partial => Err(Http1Error::UnexpectedEof),
        ParsedRequestView::TooManyHeaders => Err(Http1Error::TooManyHeaders),
        ParsedRequestView::Invalid => Err(Http1Error::InvalidHeader),
        ParsedRequestView::Complete { length, method, path, version, headers } => {
            if length != bytes.len() || method != Some(line.method) || path != Some(line.target) {
                Err(Http1Error::InvalidRequestLine)
            } else if parsed_version(version) is None {
                Err(Http1Error::UnsupportedHttpVersion)
            } else if parsed_version(version) != Some(line.version) {
                Err(Http1Error::InvalidRequestLine)
            } else {
                match header_block(bytes.subrange(line_end + 2, bytes.len() - 2)) {
                    Err(e) => Err(e),
                    Ok(fields) => if fields.len() != headers {
                        Err(Http1Error::InvalidHeader)
                    } else {
                        Ok(
                            RequestHeadView {
                                method: line.method,
                                target: line.target,
                                version: line.version,
                                headers: fields,
                            },
                        )
                    },
                }
            }
        },
    }
}

/// The head that the bytes hold, given what the second parser made of them.
pub open spec fn request_head_of(bytes: Seq<u8>, parsed: ParsedRequestView) -> Result<
    RequestHeadView,
    Http1Error,
> {
    match strict_request_line(bytes) {
        Err(e) => Err(e),
        Ok((line, line_end)) => agreed_head(bytes, line, line_end, parsed),
    }
}

pub open spec fn same_head(
    r: Result<RequestHead, Http1Error>,
    v: Result<RequestHeadView, Http1Error>,
) -> bool {
    match (r, v) {
        (Ok(h), Ok(w)) => h@ == w,
        (Err(e), Err(f)) => e == f,
        _ => false,
    }
}

proof fn lemma_crlf_bound(s: Seq<u8>, j: int)
    requires
        crlf_from(s, j) is Some,
    ensures
        j <= crlf_from(s, j)->0,
        crlf_from(s, j)->0 + 2 <= s.len(),
    decreases s.len() - j,
{
    if !(s[j] == 0x0d && s[j + 1] == 0x0a) {
        lemma_crlf_bound(s, j + 1);
    }
}

/// The first line end of a head comes no later than two bytes before the end
/// of the head.
proof fn lemma_first_line_before_end(s: Seq<u8>, i: int)
    requires
        0 <= i,
        head_end_from(s, i) is Some,
    ensures
        crlf_from(s, i) is Some,
        crlf_from(s, i)->0 + 4 <= head_end_from(s, i)->0 <= s.len(),
    decreases s.len() - i,
{
    if is_head_end(s, i) {
    } else if s[i] == 0x0d && s[i + 1] == 0x0a {
        lemma_first_line_before_end(s, i + 1);
        lemma_crlf_bound(s, i + 1);
    } else {
        lemma_first_line_before_end(s, i + 1);
    }
}

fn check_request_line(bytes: &[u8]) -> (r: Result<(RequestLine, usize), Http1Error>)
    ensures
        match (r, strict_request_line(bytes@)) {
            (Ok((l, k)), Ok((v, n))) => l@ == v && k == n && k + 4 <= bytes@.len(),
            (Err(e), Err(f)) => e == f,
            _ => false,
        },
{
    if bytes.len() > DEFAULT_MAX_REQUEST_HEAD_BYTES {
        return Err(Http1Error::HeadTooLarge);
    }
    let end: usize = match find_head_end(bytes) {
        Some(e) => e,
        None => {
            return Err(Http1Error::UnexpectedEof);
        },
    };
    proof {
        lemma_first_line_before_end(bytes@, 0);
    }
    if end != bytes.len() {
        return Err(Http1Error::InvalidHeader);
    }
    match validate_crlf(bytes) {
        Err(e) => {
            return Err(e);
        },
        Ok(()) => {},
    }
    match find_crlf(bytes) {
        None => Err(Http1Error::InvalidRequestLine),
        Some(k) => {
            let line = text::bytes_between(bytes, 0, k);
            assert(line@ == bytes@.take(k as int));
            match parse_request_line(line.as_slice()) {
                Err(e) => Err(e),
                Ok(l) => Ok((l, k)),
            }
        },
    }
}

fn same_optional_text(a: &Option<String>, b: &str) -> (r: bool)
    ensures
        r == (text_of(*a) == Some(b@)),
{
    match a {
        Some(t) => text::same_text(t.as_str(), b),
        None => false,
    }
}

fn agree(
    bytes: &[u8],
    line: RequestLine,
    line_end: usize,
    parsed: ParsedRequest,
) -> (r: Result<RequestHead, Http1Error>)
    requires
        line_end + 4 <= bytes@.len(),
    ensures
        same_head(r, agreed_head(bytes@, line@, line_end as int, parsed@)),
{
    match parsed {
        ParsedRequest::Partial => Err(Http1Error::UnexpectedEof),
        ParsedRequest::TooManyHeaders => Err(Http1Error::TooManyHeaders),
        ParsedRequest::Invalid => Err(Http1Error::InvalidHeader),
        ParsedRequest::Complete { length, method, path, version, headers } => {
            if length != bytes.len() || !same_optional_text(&method, line.method.as_str())
                || !same_optional_text(&path, line.target.as_str()) {
                return Err(Http1Error::InvalidRequestLine);
            }
            let parsed_version = match version {
                Some(n) => if n == 0 {
                    HttpVersion::Http10
                } else if n == 1 {
                    HttpVersion::Http11
                } else {
                    return Err(Http1Error::UnsupportedHttpVersion);
                },
                None => {
                    return Err(Http1Error::UnsupportedHttpVersion);
                },
            };
            if parsed_version != line.version {
                return Err(Http1Error::InvalidRequestLine);
            }
            let block = text::bytes_between(bytes, line_end + 2, bytes.len() - 2);
            match parse_header_block(block.as_slice()) {
                Err(e) => Err(e),
                Ok(fields) => {
                    assert(header_views(fields@).len() == fields@.len());
                    if fields.len() != headers {
                        Err(Http1Error::InvalidHeader)
                    } else {
                        Ok(
                            RequestHead {
                                method: line.method,
                                target: line.target,
                                version: line.version,
                                headers: fields,
                            },
                        )
                    }
                },
            }
        },
    }
}

/// Accepts a head that ends the given bytes, given what the second parser made
/// of them.
pub fn accept_request_head(bytes: &[u8], parsed: ParsedRequest) -> (r: Result<
    RequestHead,
    Http1Error,
>)
    ensures
        same_head(r, request_head_of(bytes@, parsed@)),
{
    match check_request_line(bytes) {
        Err(e) => Err(e),
        Ok((line, line_end)) => agree(bytes, line, line_end, parsed),
    }
}

/// Parses a complete request head, which must end the given bytes.
pub fn parse_request_head(bytes: &[u8]) -> (r: Result<RequestHead, Http1Error>)
    ensures
        same_head(r, request_head_of(bytes@, httparse_outcome(bytes@, MAX_REQUEST_HEADERS))),
{
    match check_request_line(bytes) {
        Err(e) => Err(e),
        Ok((line, line_end)) => agree(
            bytes,
            line,
            line_end,
            httparse_request(bytes, MAX_REQUEST_HEADERS),
        ),
    }
}


/// The values of the fields with the given name, in order.
pub open spec fn values_of(headers: Seq<HeaderView>, name: Seq<char>) -> Seq<Seq<char>>
    decreases headers.len(),
{
    if headers.len() == 0 {
        Seq::empty()
    } else {
        let before = values_of(headers.drop_last(), name);
        if text::eq_ignore_case(headers.last().name, name) {
            before.push(headers.last().value)
        } else {
            before
        }
    }
}

pub open spec fn texts(v: Seq<&str>) -> Seq<Seq<char>> {
    v.map_values(|s: &str| s@)
}

/// The values of the fields with the given name, in order, whatever the case of
/// the name.
pub fn field_values<'a>(headers: &'a [Header], name: &str) -> (r: Vec<&'a str>)
    ensures
        texts(r@) == values_of(header_views(headers@), name@),
{
    let ghost hs = header_views(headers@);
    let mut v: Vec<&'a str> = Vec::new();
    let mut i: usize = 0;
    assert(texts(v@) == Seq::<Seq<char>>::empty());
    assert(hs.take(0) == Seq::<HeaderView>::empty());
    while i < headers.len()
        invariant
            i <= headers@.len(),
            hs == header_views(headers@),
            hs.len() == headers@.len(),
            texts(v@) == values_of(hs.take(i as int), name@),
        decreases headers.len() - i,
    {
        let h = &headers[i];
        proof {
            assert(hs.take(i as int + 1).drop_last() == hs.take(i as int));
            assert(hs[i as int] == h@);
        }
        if text::same_ignore_case(h.name(), name) {
            let value = h.value();
            let ghost before = v@;
            v.push(value);
            assert(texts(v@) == texts(before).push(value@));
        }
        i += 1;
    }
    assert(hs.take(i as int) == hs);
    v
}

pub open spec fn authority_view(a: Option<&Authority>) -> Option<AuthorityView> {
    match a {
        Some(x) => Some(x@),
        None => None,
    }
}

/// The authority of the sole `Host` field, where there is one.
pub open spec fn host_authority_of(headers: Seq<HeaderView>, default_port: u16) -> Result<
    Option<AuthorityView>,
    Http1Error,
> {
    let values = values_of(headers, "host"@);
    if values.len() == 0 {
        Ok(None)
    } else if values.len() > 1 {
        Err(Http1Error::HostMismatch)
    } else {
        match target::authority_of(values[0], Some(default_port), false) {
            Some(a) => Ok(Some(a)),
            None => Err(Http1Error::HostMismatch),
        }
    }
}

/// The port that a `Host` field without one stands for.
pub open spec fn host_default_port(t: RequestTargetView) -> u16 {
    match t {
        RequestTargetView::Absolute { scheme, .. } => scheme.port(),
        RequestTargetView::Connect { authority } => authority.port,
        RequestTargetView::Origin { .. } => 443,
    }
}

/// The target, where the `Host` field agrees with it; only HTTP/1.0 may leave
/// the field out.
pub open spec fn validated_target_of(
    head: RequestHeadView,
    connected_to: Option<AuthorityView>,
) -> Result<RequestTargetView, Http1Error> {
    match target::request_target_of(head.method, head.target, connected_to) {
        Err(e) => Err(e),
        Ok(t) => match host_authority_of(head.headers, host_default_port(t)) {
            Err(e) => Err(e),
            Ok(Some(host)) => if host == t.authority_spec() {
                Ok(t)
            } else {
                Err(Http1Error::HostMismatch)
            },
            Ok(None) => if head.version == HttpVersion::Http10 {
                Ok(t)
            } else {
                Err(Http1Error::MissingHost)
            },
        },
    }
}

impl RequestHead {
    pub fn method(&self) -> (r: &str)
        ensures
            r@ == self@.method,
    {
        self.method.as_str()
    }

    pub fn raw_target(&self) -> (r: &str)
        ensures
            r@ == self@.target,
    {
        self.target.as_str()
    }

    pub fn version(&self) -> (r: HttpVersion)
        ensures
            r == self@.version,
    {
        self.version
    }

    pub fn headers(&self) -> (r: &[Header])
        ensures
            header_views(r@) == self@.headers,
    {
        self.headers.as_slice()
    }

    /// The values of the fields with the given name, in order.
    pub fn header_values<'a>(&'a self, name: &str) -> (r: Vec<&'a str>)
        ensures
            texts(r@) == values_of(self@.headers, name@),
    {
        field_values(self.headers.as_slice(), name)
    }

    /// The sole proxy credential field, undecoded.
    pub fn proxy_authorization(&self) -> (r: Result<Option<&str>, Http1Error>)
        ensures
            ({
                let values = values_of(self@.headers, "proxy-authorization"@);
                match r {
                    Ok(None) => values.len() == 0,
                    Ok(Some(v)) => values == seq![v@],
                    Err(e) => values.len() > 1 && e == Http1Error::DuplicateProxyAuthorization,
                }
            }),
    {
        let values = self.header_values("proxy-authorization");
        assert(texts(values@).len() == values@.len());
        if values.len() > 1 {
            Err(Http1Error::DuplicateProxyAuthorization)
        } else if values.len() == 1 {
            let v = values[0];
            assert(texts(values@) == seq![v@]);
            Ok(Some(v))
        } else {
            Ok(None)
        }
    }

    /// The authority of the `Host` field, where there is one.
    pub fn host_authority(&self, default_port: u16) -> (r: Result<Option<Authority>, Http1Error>)
        ensures
            match (r, host_authority_of(self@.headers, default_port)) {
                (Ok(Some(a)), Ok(Some(v))) => a@ == v,
                (Ok(None), Ok(None)) => true,
                (Err(e), Err(f)) => e == f,
                _ => false,
            },
    {
        let values = self.header_values("host");
        assert(texts(values@).len() == values@.len());
        if values.len() == 0 {
            return Ok(None);
        }
        if values.len() > 1 {
            return Err(Http1Error::HostMismatch);
        }
        assert(texts(values@)[0] == values@[0]@);
        match Authority::parse(values[0], default_port) {
            Ok(a) => Ok(Some(a)),
            Err(_) => Err(Http1Error::HostMismatch),
        }
    }

    /// Parses the request target, directly or within a connection.
    pub fn request_target(&self, connected_to: Option<&Authority>) -> (r: Result<
        RequestTarget,
        Http1Error,
    >)
        ensures
            target::same_target(
                r,
                target::request_target_of(
                    self@.method,
                    self@.target,
                    authority_view(connected_to),
                ),
            ),
    {
        target::parse_request_target(self.method.as_str(), self.target.as_str(), connected_to)
    }

    /// Parses the target and verifies the `Host` field against its authority.
    pub fn validated_target(&self, connected_to: Option<&Authority>) -> (r: Result<
        RequestTarget,
        Http1Error,
    >)
        ensures
            target::same_target(r, validated_target_of(self@, authority_view(connected_to))),
    {
        let target = match self.request_target(connected_to) {
            Ok(t) => t,
            Err(e) => {
                return Err(e);
            },
        };
        let default_port: u16 = match &target {
            RequestTarget::Absolute(t) => t.scheme().default_port(),
            RequestTarget::Connect(a) => a.port(),
            RequestTarget::Origin(_) => 443,
        };
        match self.host_authority(default_port) {
            Err(e) => Err(e),
            Ok(Some(host)) => if host.same(target.authority()) {
                Ok(target)
            } else {
                Err(Http1Error::HostMismatch)
            },
            Ok(None) => match self.version {
                HttpVersion::Http10 => Ok(target),
                HttpVersion::Http11 => Err(Http1Error::MissingHost),
            },
        }
    }

    /// A diagnostic description that withholds target and fields.
    pub fn describe(&self) -> (r: String)
        ensures
            r@ == "RequestHead { method: \""@ + self@.method
                + "\", target: \"<redacted>\", version: "@ + (match self@.version {
                HttpVersion::Http10 => "Http10"@,
                HttpVersion::Http11 => "Http11"@,
            }) + ", header_count: "@ + text::decimal(self@.headers.len()) + " }"@,
    {
        let mut v = text::to_chars("RequestHead { method: \"");
        text::push_str(&mut v, self.method.as_str());
        text::push_str(&mut v, "\", target: \"<redacted>\", version: ");
        match self.version {
            HttpVersion::Http10 => text::push_str(&mut v, "Http10"),
            HttpVersion::Http11 => text::push_str(&mut v, "Http11"),
        }
        text::push_str(&mut v, ", header_count: ");
        let n: usize = self.headers.len();
        assert(header_views(self.headers@).len() == n);
        let d = text::digits_of(n as u64, 10);
        text::push_chars(&mut v, d.as_slice());
        text::push_str(&mut v, " }");
        text::from_chars(v.as_slice())
    }
}

// ---------------------------------------------------------------------
// Reading
// ---------------------------------------------------------------------

/// The bytes of a connection that has ended, and how far they have been read.
pub struct Input {
    bytes: Vec<u8>,
    position: usize,
}

impl Input {
    #[verifier::type_invariant]
    spec fn inside(self) -> bool {
        self.position <= self.bytes@.len()
    }

    /// What has not been read yet.
    pub closed spec fn remaining(self) -> Seq<u8> {
        self.bytes@.skip(self.position as int)
    }

    pub fn new(bytes: Vec<u8>) -> (r: Self)
        ensures
            r.remaining() == bytes@,
    {
        let r = Input { bytes, position: 0 };
        assert(r.remaining() == bytes@);
        r
    }

    /// Takes the next byte, or `None` at the end.
    pub fn next_byte(&mut self) -> (r: Option<u8>)
        ensures
            match r {
                Some(b) => old(self).remaining().len() > 0 && b == old(self).remaining()[0]
                    && final(self).remaining() == old(self).remaining().drop_first(),
                None => old(self).remaining().len() == 0 && final(self).remaining() == old(self).remaining(),
            },
    {
        proof {
            use_type_invariant(&*self);
        }
        let at: usize = self.position;
        if at < self.bytes.len() {
            let b: u8 = self.bytes[at];
            self.position = at + 1;
            assert(self.remaining() == old(self).remaining().drop_first());
            Some(b)
        } else {
            None
        }
    }

    /// A copy of what has not been read yet.
    pub fn rest(&self) -> (r: Vec<u8>)
        ensures
            r@ == self.remaining(),
    {
        proof {
            use_type_invariant(self);
        }
        let r = text::bytes_between(self.bytes.as_slice(), self.position, self.bytes.len());
        assert(r@ == self.remaining());
        r
    }
}

/// Collects one request head, byte by byte.
pub struct RequestHeadReader {
    bytes: Vec<u8>,
    limit: usize,
}

/// What a further byte of a head leads to.
pub open spec fn head_progress(received: Seq<u8>, limit: int) -> Option<
    Result<RequestHeadView, Http1Error>,
> {
    if is_head_end(received, received.len() - 4) {
        Some(request_head_of(received, httparse_outcome(received, MAX_REQUEST_HEADERS)))
    } else if received.len() >= limit {
        Some(Err(Http1Error::HeadTooLarge))
    } else {
        None
    }
}

impl RequestHeadReader {
    /// The bytes taken so far.
    pub closed spec fn received(self) -> Seq<u8> {
        self.bytes@
    }

    pub closed spec fn limit_spec(self) -> usize {
        self.limit
    }

    pub fn new(max_head_bytes: usize) -> (r: Result<Self, Http1Error>)
        ensures
            match r {
                Ok(reader) => max_head_bytes >= 4 && reader.received().len() == 0
                    && reader.limit_spec() == max_head_bytes,
                Err(e) => max_head_bytes < 4 && e == Http1Error::HeadTooLarge,
            },
    {
        if max_head_bytes < 4 {
            return Err(Http1Error::HeadTooLarge);
        }
        Ok(RequestHeadReader { bytes: Vec::new(), limit: max_head_bytes })
    }

    /// Takes one byte. `Some` is the outcome: the head that this byte
    /// completes, or the error that ends the reading. A byte past the limit is
    /// not taken.
    pub fn push(&mut self, byte: u8) -> (r: Option<Result<RequestHead, Http1Error>>)
        ensures
            final(self).limit_spec() == old(self).limit_spec(),
            old(self).received().len() >= old(self).limit_spec() ==> {
                &&& final(self).received() == old(self).received()
                &&& r == Some(Err::<RequestHead, Http1Error>(Http1Error::HeadTooLarge))
            },
            old(self).received().len() < old(self).limit_spec() ==> {
                &&& final(self).received() == old(self).received().push(byte)
                &&& match (
                    r,
                    head_progress(final(self).received(), old(self).limit_spec() as int),
                ) {
                    (Some(a), Some(b)) => same_head(a, b),
                    (None, None) => true,
                    _ => false,
                }
            },
    {
        if self.bytes.len() >= self.limit {
            return Some(Err(Http1Error::HeadTooLarge));
        }
        self.bytes.push(byte);
        let n: usize = self.bytes.len();
        if n >= 4 && self.bytes[n - 4] == 0x0d && self.bytes[n - 3] == 0x0a && self.bytes[n - 2]
            == 0x0d && self.bytes[n - 1] == 0x0a {
            return Some(parse_request_head(self.bytes.as_slice()));
        }
        if n >= self.limit {
            return Some(Err(Http1Error::HeadTooLarge));
        }
        None
    }
}

/// What a stream gives as its first head, and how many bytes that takes.
pub open spec fn streamed_head(stream: Seq<u8>, max_head_bytes: int) -> (
    Result<RequestHeadView, Http1Error>,
    int,
) {
    let window = if stream.len() < max_head_bytes {
        stream
    } else {
        stream.take(max_head_bytes)
    };
    if max_head_bytes < 4 {
        (Err(Http1Error::HeadTooLarge), 0)
    } else {
        match head_end(window) {
            Some(e) => (
                request_head_of(
                    stream.take(e),
                    httparse_outcome(stream.take(e), MAX_REQUEST_HEADERS),
                ),
                e,
            ),
            None => if stream.len() < max_head_bytes {
                (Err(Http1Error::UnexpectedEof), stream.len() as int)
            } else {
                (Err(Http1Error::HeadTooLarge), max_head_bytes)
            },
        }
    }
}

proof fn lemma_first_head_end(s: Seq<u8>, i: int, e: int)
    requires
        0 <= i <= e,
        is_head_end(s, e),
        forall|j: int| i <= j < e ==> !#[trigger] is_head_end(s, j),
    ensures
        head_end_from(s, i) == Some(e + 4),
    decreases e - i,
{
    if i < e {
        assert(!is_head_end(s, i));
        lemma_first_head_end(s, i + 1, e);
    }
}

proof fn lemma_no_head_end(s: Seq<u8>, i: int)
    requires
        0 <= i,
        forall|j: int| i <= j ==> !#[trigger] is_head_end(s, j),
    ensures
        head_end_from(s, i) is None,
    decreases s.len() - i,
{
    if i + 4 <= s.len() {
        assert(!is_head_end(s, i));
        lemma_no_head_end(s, i + 1);
    }
}

/// Reads exactly one request head and leaves all body bytes unread.
pub fn read_request_head(input: &mut Input, max_head_bytes: usize) -> (r: Result<
    RequestHead,
    Http1Error,
>)
    ensures
        ({
            let (head, consumed) = streamed_head(old(input).remaining(), max_head_bytes as int);
            same_head(r, head) && final(input).remaining() == old(input).remaining().skip(consumed)
        }),
{
    let ghost stream = input.remaining();
    let ghost window = if stream.len() < max_head_bytes {
        stream
    } else {
        stream.take(max_head_bytes as int)
    };
    assert(stream.skip(0) == stream);
    let mut reader = match RequestHeadReader::new(max_head_bytes) {
        Ok(reader) => reader,
        Err(e) => {
            return Err(e);
        },
    };
    let mut taken: usize = 0;
    assert(stream.take(0) == Seq::<u8>::empty());
    loop
        invariant
            taken < max_head_bytes,
            taken <= stream.len(),
            max_head_bytes >= 4,
            reader.limit_spec() == max_head_bytes,
            reader.received() == stream.take(taken as int),
            input.remaining() == stream.skip(taken as int),
            window == (if stream.len() < max_head_bytes {
                stream
            } else {
                stream.take(max_head_bytes as int)
            }),
            stream == old(input).remaining(),
            forall|j: int| 0 <= j && j + 4 <= taken ==> !#[trigger] is_head_end(window, j),
        decreases max_head_bytes - taken,
    {
        match input.next_byte() {
            None => {
                proof {
                    assert(taken == stream.len());
                    assert forall|j: int| 0 <= j implies !#[trigger] is_head_end(window, j) by {}
                    lemma_no_head_end(window, 0);
                }
                return Err(Http1Error::UnexpectedEof);
            },
            Some(b) => {
                let progress = reader.push(b);
                taken += 1;
                proof {
                    assert(stream.take(taken as int) == stream.take(taken as int - 1).push(b));
                    assert(stream.skip(taken as int) == stream.skip(taken as int - 1).drop_first());
                    let got = stream.take(taken as int);
                    if taken >= 4 {
                        assert(is_head_end(got, taken - 4) == is_head_end(window, taken - 4));
                        if is_head_end(window, taken - 4) {
                            lemma_first_head_end(window, 0, taken - 4);
                        } else if taken == max_head_bytes {
                            assert forall|j: int| 0 <= j implies !#[trigger] is_head_end(
                                window,
                                j,
                            ) by {}
                            lemma_no_head_end(window, 0);
                        }
                    }
                }
                match progress {
                    Some(outcome) => {
                        return outcome;
                    },
                    None => {},
                }
            },
        }
    }
}

/// The values of a field are those of all fields of the name but for case, in order.
pub proof fn values_are_found_by_name(headers: Seq<HeaderView>, name: Seq<char>)
    ensures
        values_of(headers, name) == headers.filter(
            |h: HeaderView| text::lower(h.name) == text::lower(name),
        ).map_values(|h: HeaderView| h.value),
    decreases headers.len(),
{
    reveal(Seq::filter);
    let named = |h: HeaderView| text::lower(h.name) == text::lower(name);
    let value = |h: HeaderView| h.value;
    if headers.len() > 0 {
        let rest = headers.drop_last();
        values_are_found_by_name(rest, name);
        let before = rest.filter(named);
        if named(headers.last()) {
            assert(headers.filter(named) =~= before.push(headers.last()));
            assert(before.push(headers.last()).map_values(value) =~= before.map_values(value).push(
                headers.last().value,
            ));
        } else {
            assert(headers.filter(named) =~= before);
        }
    } else {
        assert(headers.filter(named) =~= Seq::empty());
        assert(headers.filter(named).map_values(value) =~= Seq::empty());
    }
}

/// A byte of a token is a letter, a digit or one of fifteen marks; a byte of a value is
/// visible, a space or a tab.
pub proof fn bytes_of_fields_are_classed(b: u8)
    ensures
        is_token_byte(b) <==> 0x30 <= b <= 0x39 || 0x41 <= b <= 0x5a || 0x61 <= b <= 0x7a || b
            == 0x21 || 0x23 <= b <= 0x27 || b == 0x2a || b == 0x2b || b == 0x2d || b == 0x2e
            || 0x5e <= b <= 0x60 || b == 0x7c || b == 0x7e,
        is_value_byte(b) <==> b == 0x09 || 0x20 <= b <= 0x7e,
        is_ows(b) <==> b == 0x09 || b == 0x20,
{
}

/// A field line is a token, a colon and a value, which is what stands between the spaces
/// and tabs at both ends. It is taken exactly where the token is one and the value has none
/// but visible bytes, spaces and tabs.
pub proof fn field_lines_are_read(name: Seq<u8>, rest: Seq<u8>) -> (cut: (int, int))
    requires
        !name.contains(0x3au8),
    ensures
        0 <= cut.0 <= cut.1 <= rest.len(),
        forall|i: int| 0 <= i < cut.0 || cut.1 <= i < rest.len() ==> #[trigger] rest[i] == 0x20
            || rest[i] == 0x09,
        cut.0 < cut.1 ==> rest[cut.0] != 0x20 && rest[cut.0] != 0x09 && rest[cut.1 - 1] != 0x20
            && rest[cut.1 - 1] != 0x09,
        ({
            let value = rest.subrange(cut.0, cut.1);
            let good = name.len() > 0 && (forall|i: int|
                0 <= i < name.len() ==> is_token_byte(#[trigger] name[i])) && forall|i: int|
                0 <= i < value.len() ==> #[trigger] value[i] == 0x09 || 0x20 <= value[i] <= 0x7e;
            &&& header_line(name.push(0x3au8) + rest) is Some <==> good
            &&& good ==> header_line(name.push(0x3au8) + rest) == Some(
                HeaderView { name: text::ascii_chars(name), value: text::ascii_chars(value) },
            )
        }),
{
    let line = name.push(0x3au8) + rest;
    assert forall|j: int| 0 <= j < name.len() implies line[j] != 0x3a by {
        assert(line[j] == name[j]);
        assert(name.contains(name[j]));
    }
    text::lemma_find(line, 0x3au8, name.len() as int);
    assert(line.take(name.len() as int) =~= name);
    assert(line.skip(name.len() as int + 1) =~= rest);
    let blank = |b: u8| is_ows(b);
    let a = text::lemma_trim_start(rest, blank);
    let b = text::lemma_trim_end(rest.skip(a), blank);
    assert(trimmed(rest) == rest.skip(a).take(b));
    assert(rest.skip(a).take(b) =~= rest.subrange(a, a + b));
    assert forall|i: int| 0 <= i < a || a + b <= i < rest.len() implies #[trigger] rest[i] == 0x20
        || rest[i] == 0x09 by {
        if i < a {
            assert(blank(rest[i]));
        } else {
            assert(rest.skip(a)[i - a] == rest[i]);
            assert(blank(rest.skip(a)[i - a]));
        }
    }
    if b > 0 {
        assert(!blank(rest[a]));
        assert(!blank(rest.skip(a)[b - 1]));
        assert(rest.skip(a)[b - 1] == rest[a + b - 1]);
    }
    if name.len() > 0 {
        assert(line[0] == name[0]);
        if is_ows(line[0]) {
            assert(!is_token_byte(name[0]));
        }
    } else {
        assert(!is_token(name));
    }
    (a, a + b)
}

/// A line without a colon is no field.
pub proof fn fields_have_a_colon(line: Seq<u8>)
    requires
        !line.contains(0x3au8),
    ensures
        header_line(line) is None,
{
    text::lemma_find_bounds(line, 0x3au8);
}

/// Two versions are spoken; of others it is only told whether they are versions at all.
pub proof fn versions_are_known_by_name(bytes: Seq<u8>)
    ensures
        ({
            let v = text::ascii_chars(bytes);
            &&& version_of(bytes) == Ok::<HttpVersion, Http1Error>(HttpVersion::Http10) <==> v
                == "HTTP/1.0"@
            &&& version_of(bytes) == Ok::<HttpVersion, Http1Error>(HttpVersion::Http11) <==> v
                == "HTTP/1.1"@
            &&& version_of(bytes) is Err ==> version_of(bytes)->Err_0 == if v.len() >= 5 && v.take(5)
                == "HTTP/"@ {
                Http1Error::UnsupportedHttpVersion
            } else {
                Http1Error::InvalidRequestLine
            }
        }),
{
    let v = text::ascii_chars(bytes);
    reveal_strlit("HTTP/");
    reveal_strlit("HTTP/1.0");
    reveal_strlit("HTTP/1.1");
    assert("HTTP/1.0"@[7] != "HTTP/1.1"@[7]);
    if v.len() >= 5 {
        assert(v.take(5) == "HTTP/"@ ==> "HTTP/"@.is_prefix_of(v)) by {
            if v.take(5) == "HTTP/"@ {
                assert(v.subrange(0, 5) =~= v.take(5));
            }
        }
        assert("HTTP/"@.is_prefix_of(v) ==> v.take(5) =~= "HTTP/"@);
    }
}

/// A request line is a method, a target and a version, with one space between each: the
/// method is a token, the target has visible bytes, and the version is one that is spoken.
pub proof fn request_lines_are_read(method: Seq<u8>, target: Seq<u8>, version: Seq<u8>)
    requires
        !method.contains(0x20u8),
        !target.contains(0x20u8),
        !version.contains(0x20u8),
    ensures
        ({
            let r = request_line(method.push(0x20u8) + (target.push(0x20u8) + version));
            let good = method.len() > 0 && (forall|i: int|
                0 <= i < method.len() ==> is_token_byte(#[trigger] method[i])) && target.len() > 0
                && (forall|i: int|
                0 <= i < target.len() ==> 0x21 <= #[trigger] target[i] <= 0x7e);
            let plain = forall|i: int|
                0 <= i < version.len() ==> #[trigger] version[i] < 0x80 && version[i] != 0x09;
            &&& good && plain && version_of(version) is Ok <==> r is Ok
            &&& r is Ok ==> r->Ok_0 == (RequestLineView {
                method: text::ascii_chars(method),
                target: text::ascii_chars(target),
                version: version_of(version)->Ok_0,
            })
            &&& r is Err && good && plain ==> r->Err_0 == version_of(version)->Err_0
            &&& r is Err && !(good && plain) ==> r->Err_0 == Http1Error::InvalidRequestLine
        }),
{
    let tail = target.push(0x20u8) + version;
    let line = method.push(0x20u8) + tail;
    text::split_distributes(method, tail, 0x20u8);
    text::split_distributes(target, version, 0x20u8);
    lemma_split_whole(method);
    lemma_split_whole(target);
    lemma_split_whole(version);
    let p = text::split(line, 0x20u8);
    assert(p =~= seq![method, target, version]);
    assert(p[0] == method && p[1] == target && p[2] == version);
    let good = is_token(method) && target.len() > 0 && is_visible(target);
    let plain = forall|i: int|
        0 <= i < version.len() ==> #[trigger] version[i] < 0x80 && version[i] != 0x09;
    let m = method.len() as int;
    let t = target.len() as int;
    if good && plain {
        assert forall|i: int| 0 <= i < line.len() implies #[trigger] line[i] < 0x80 && line[i]
            != 0x09 by {
            if i < m {
                assert(line[i] == method[i]);
            } else if i == m {
            } else if i < m + 1 + t {
                assert(line[i] == target[i - m - 1]);
            } else if i == m + 1 + t {
            } else {
                assert(line[i] == version[i - m - t - 2]);
            }
        }
    }
    if is_ascii_bytes(line) && !line.contains(9u8) {
        assert forall|i: int| 0 <= i < version.len() implies #[trigger] version[i] < 0x80
            && version[i] != 0x09 by {
            let j = i + m + t + 2;
            assert(line[j] == version[i]);
            assert(line.contains(line[j]));
        }
    }
}

proof fn lemma_split_whole(s: Seq<u8>)
    requires
        !s.contains(0x20u8),
    ensures
        text::split(s, 0x20u8) == seq![s],
    decreases s.len(),
{
    if s.len() > 0 {
        let front = s.drop_last();
        assert forall|x: u8| front.contains(x) implies s.contains(x) by {
            let i = choose|i: int| 0 <= i < front.len() && front[i] == x;
            assert(s[i] == x);
        }
        lemma_split_whole(front);
        assert(s.contains(s.last()));
        assert(front.push(s.last()) =~= s);
        assert(text::split(s, 0x20u8) =~= seq![s]);
    } else {
        assert(s =~= Seq::<u8>::empty());
        assert(text::split(s, 0x20u8) =~= seq![s]);
    }
}

/// A line with another number of spaces is no request line.
pub proof fn request_lines_have_two_spaces(bytes: Seq<u8>)
    requires
        text::split(bytes, 0x20u8).len() != 3,
    ensures
        request_line(bytes) == Err::<RequestLineView, Http1Error>(Http1Error::InvalidRequestLine),
{
}

/// A field block gives a field for each of its lines that is not empty, in order, and does
/// so exactly where each ends in a carriage return and is a field line before it, and where
/// there are no more than two hundred and fifty-six.
pub proof fn field_blocks_are_read_line_by_line(lines: Seq<Seq<u8>>)
    ensures
        ({
            let full = lines.filter(|l: Seq<u8>| l.len() > 0);
            let good = forall|i: int|
                0 <= i < full.len() ==> (#[trigger] full[i]).last() == 0x0d && header_line(
                    full[i].drop_last(),
                ) is Some;
            let r = block_fields(lines);
            &&& r is Ok <==> good && full.len() <= 256
            &&& r is Ok ==> r->Ok_0 == full.map_values(
                |l: Seq<u8>| header_line(l.drop_last())->Some_0,
            )
            &&& good && full.len() > 256 ==> r == Err::<Seq<HeaderView>, Http1Error>(
                Http1Error::TooManyHeaders,
            )
            &&& !good && full.len() <= 256 ==> r == Err::<Seq<HeaderView>, Http1Error>(
                Http1Error::InvalidHeader,
            )
        }),
    decreases lines.len(),
{
    reveal(Seq::filter);
    let nonempty = |l: Seq<u8>| l.len() > 0;
    let field = |l: Seq<u8>| header_line(l.drop_last())->Some_0;
    let full = lines.filter(nonempty);
    if lines.len() == 0 {
        assert(full.map_values(field) =~= Seq::empty());
    } else {
        let rest = lines.drop_last();
        let line = lines.last();
        field_blocks_are_read_line_by_line(rest);
        let before = rest.filter(nonempty);
        if nonempty(line) {
            assert(full =~= before.push(line));
            assert(full.last() == line);
            assert forall|i: int| 0 <= i < before.len() implies before[i] == full[i] by {}
            assert(full.map_values(field) =~= before.map_values(field).push(field(line)));
        } else {
            assert(full =~= before);
        }
    }
}

/// A head ends at the first blank line, and not before it.
pub proof fn heads_end_at_the_first_blank_line(s: Seq<u8>)
    ensures
        ({
            let blank = seq![0x0du8, 0x0au8, 0x0du8, 0x0au8];
            match head_end(s) {
                Some(e) => {
                    &&& 4 <= e <= s.len() && s.subrange(e - 4, e) == blank
                    &&& forall|i: int| 0 <= i < e - 4 ==> #[trigger] s.subrange(i, i + 4) != blank
                },
                None => forall|i: int|
                    0 <= i && i + 4 <= s.len() ==> #[trigger] s.subrange(i, i + 4) != blank,
            }
        }),
{
    lemma_head_end_from(s, 0);
    assert forall|i: int| 0 <= i && i + 4 <= s.len() implies (#[trigger] s.subrange(i, i + 4)
        == seq![0x0du8, 0x0au8, 0x0du8, 0x0au8] <==> is_head_end(s, i)) by {
        let t = s.subrange(i, i + 4);
        let w = seq![0x0du8, 0x0au8, 0x0du8, 0x0au8];
        if is_head_end(s, i) {
            assert(t =~= w);
        } else if t == w {
            assert(t[0] == w[0] && t[1] == w[1] && t[2] == w[2] && t[3] == w[3]);
        }
    }
}

proof fn lemma_head_end_from(s: Seq<u8>, i: int)
    requires
        0 <= i,
    ensures
        match head_end_from(s, i) {
            Some(e) => i <= e - 4 && is_head_end(s, e - 4) && forall|j: int|
                i <= j < e - 4 ==> !#[trigger] is_head_end(s, j),
            None => forall|j: int| i <= j ==> !#[trigger] is_head_end(s, j),
        },
    decreases s.len() - i,
{
    if i + 4 <= s.len() && !is_head_end(s, i) {
        lemma_head_end_from(s, i + 1);
    }
}

/// A line ends at its first carriage return that a line feed follows.
pub proof fn lines_end_at_the_first_pair(s: Seq<u8>, i: int)
    requires
        0 <= i,
    ensures
        match crlf_from(s, i) {
            Some(k) => i <= k && k + 2 <= s.len() && s[k] == 0x0d && s[k + 1] == 0x0a && forall|
                j: int,
            |
                i <= j < k ==> !(#[trigger] s[j] == 0x0d && s[j + 1] == 0x0a),
            None => forall|j: int|
                i <= j && j + 2 <= s.len() ==> !(#[trigger] s[j] == 0x0d && s[j + 1] == 0x0a),
        },
    decreases s.len() - i,
{
    if i + 2 <= s.len() && !(s[i] == 0x0d && s[i + 1] == 0x0a) {
        lines_end_at_the_first_pair(s, i + 1);
    }
}

/// A head is taken exactly where it fits the limit, ends where its bytes end, has its line
/// ends in pairs, has a request line, and where the second reading of it, to the whole
/// length, finds the same line and as many fields as the block has.
pub proof fn heads_are_taken_where_both_readings_agree(bytes: Seq<u8>, parsed: ParsedRequestView)
    ensures
        ({
            let end = head_end(bytes);
            let at = crlf_from(bytes, 0);
            let line = request_line(bytes.take(at->Some_0));
            let block = header_block(bytes.subrange(at->Some_0 + 2, bytes.len() - 2));
            let framed = bytes.len() <= 65536 && end == Some(bytes.len() as int)
                && has_paired_line_ends(bytes) && at is Some && line is Ok;
            let r = request_head_of(bytes, parsed);
            let same_line = parsed matches ParsedRequestView::Complete {
                length,
                method,
                path,
                version,
                ..
            } && length == bytes.len() && method == Some(line->Ok_0.method) && path == Some(
                line->Ok_0.target,
            ) && version == (match line->Ok_0.version {
                HttpVersion::Http10 => Some(0u8),
                HttpVersion::Http11 => Some(1u8),
            });
            let same_count = parsed matches ParsedRequestView::Complete { headers, .. }
                && headers == block->Ok_0.len();
            &&& r is Ok <==> framed && same_line && block is Ok && same_count
            &&& r is Ok ==> r->Ok_0 == (RequestHeadView {
                method: line->Ok_0.method,
                target: line->Ok_0.target,
                version: line->Ok_0.version,
                headers: block->Ok_0,
            })
        }),
{
}

/// What is wrong with a head is told in this order: its size, an end that is missing or too
/// early, its line ends, its request line, the second reading, and its fields.
pub proof fn faults_of_heads_are_named(bytes: Seq<u8>, parsed: ParsedRequestView)
    ensures
        ({
            let end = head_end(bytes);
            let at = crlf_from(bytes, 0);
            let line = request_line(bytes.take(at->Some_0));
            let block = header_block(bytes.subrange(at->Some_0 + 2, bytes.len() - 2));
            let fits = bytes.len() <= 65536;
            let closed = fits && end is Some;
            let paired = closed && end == Some(bytes.len() as int) && has_paired_line_ends(bytes);
            let lined = paired && at is Some && line is Ok;
            let r = request_head_of(bytes, parsed);
            let is = |e: Http1Error| r == Err::<RequestHeadView, Http1Error>(e);
            &&& !fits ==> is(Http1Error::HeadTooLarge)
            &&& fits && end is None ==> is(Http1Error::UnexpectedEof)
            &&& closed && !paired ==> is(Http1Error::InvalidHeader)
            &&& paired && at is None ==> is(Http1Error::InvalidRequestLine)
            &&& paired && at is Some && line is Err ==> is(line->Err_0)
            &&& lined ==> (match parsed {
                ParsedRequestView::Partial => is(Http1Error::UnexpectedEof),
                ParsedRequestView::TooManyHeaders => is(Http1Error::TooManyHeaders),
                ParsedRequestView::Invalid => is(Http1Error::InvalidHeader),
                ParsedRequestView::Complete { length, method, path, version, headers } => {
                    let here = length == bytes.len() && method == Some(line->Ok_0.method) && path
                        == Some(line->Ok_0.target);
                    let spoken = version == Some(0u8) || version == Some(1u8);
                    let same = (version == Some(0u8)) == (line->Ok_0.version is Http10);
                    &&& !here ==> is(Http1Error::InvalidRequestLine)
                    &&& here && !spoken ==> is(Http1Error::UnsupportedHttpVersion)
                    &&& here && spoken && !same ==> is(Http1Error::InvalidRequestLine)
                    &&& here && spoken && same && block is Err ==> is(block->Err_0)
                    &&& here && spoken && same && block is Ok && block->Ok_0.len() != headers ==> is(
                        Http1Error::InvalidHeader,
                    )
                },
            })
        }),
{
}

/// A reader goes on until its bytes end in a blank line, which gives the head, or until the
/// limit is reached.
pub proof fn heads_are_read_to_their_end(received: Seq<u8>, limit: int)
    ensures
        ({
            let ended = received.len() >= 4 && received.skip(received.len() - 4) == seq![
                0x0du8,
                0x0au8,
                0x0du8,
                0x0au8,
            ];
            let r = head_progress(received, limit);
            &&& r is None <==> !ended && received.len() < limit
            &&& ended ==> r == Some(request_head_of(received, httparse_outcome(received, 256)))
            &&& !ended && received.len() >= limit ==> r == Some(
                Err::<RequestHeadView, Http1Error>(Http1Error::HeadTooLarge),
            )
        }),
{
    if received.len() >= 4 {
        let t = received.skip(received.len() - 4);
        let w = seq![0x0du8, 0x0au8, 0x0du8, 0x0au8];
        if is_head_end(received, received.len() - 4) {
            assert(t =~= w);
        } else if t == w {
            assert(t[0] == w[0] && t[1] == w[1] && t[2] == w[2] && t[3] == w[3]);
        }
    }
}

/// A head is read off a stream up to its first blank line within the limit, and no byte
/// behind it is taken. A stream that ends first is cut short; one that does not end in time
/// is too large.
pub proof fn streams_give_their_first_head(stream: Seq<u8>, limit: int)
    requires
        limit >= 4,
    ensures
        ({
            let window = stream.take(
                if stream.len() < limit {
                    stream.len() as int
                } else {
                    limit
                },
            );
            let (r, taken) = streamed_head(stream, limit);
            match head_end(window) {
                Some(e) => taken == e && r == request_head_of(
                    stream.take(e),
                    httparse_outcome(stream.take(e), 256),
                ),
                None => taken == window.len() && r == Err::<RequestHeadView, Http1Error>(
                    if stream.len() < limit {
                        Http1Error::UnexpectedEof
                    } else {
                        Http1Error::HeadTooLarge
                    },
                ),
            }
        }),
{
    assert(stream.take(stream.len() as int) =~= stream);
}

/// A target is valid exactly where it is one and the host field names the same authority,
/// given once; in the older version that field may be missing.
pub proof fn hosts_agree_with_their_targets(
    head: RequestHeadView,
    connected_to: Option<AuthorityView>,
)
    ensures
        ({
            let given = head.headers.filter(|h: HeaderView| text::lower(h.name) == "host"@);
            let target = target::request_target_of(head.method, head.target, connected_to);
            let port = match target->Ok_0 {
                RequestTargetView::Absolute { scheme, .. } => if scheme is Http || scheme is Ws {
                    80
                } else {
                    443u16
                },
                RequestTargetView::Connect { authority } => authority.port,
                RequestTargetView::Origin { .. } => 443,
            };
            let host = target::authority_of(given[0].value, Some(port), false);
            let same = given.len() == 1 && host == Some(target->Ok_0.authority_spec());
            let r = validated_target_of(head, connected_to);
            &&& r is Ok <==> target is Ok && (same || given.len() == 0 && head.version is Http10)
            &&& r is Ok ==> r->Ok_0 == target->Ok_0
            &&& target is Err ==> r == target
            &&& target is Ok && given.len() == 0 && head.version is Http11 ==> r == Err::<
                RequestTargetView,
                Http1Error,
            >(Http1Error::MissingHost)
            &&& target is Ok && given.len() > 0 && !same ==> r == Err::<
                RequestTargetView,
                Http1Error,
            >(Http1Error::HostMismatch)
        }),
{
    reveal_strlit("host");
    assert(text::lower("host"@) =~= "host"@);
    values_are_found_by_name(head.headers, "host"@);
    assert((|h: HeaderView| text::lower(h.name) == "host"@) =~= (|h: HeaderView|
        text::lower(h.name) == text::lower("host"@)));
}

/// A malformed request is answered with four hundred, but for a head or a body that is too
/// large and a coding that is not supported.
pub proof fn malformed_requests_have_their_status(e: Http1Error)
    ensures
        status_code_of(e) == (if e is HeadTooLarge || e is TooManyHeaders {
            431
        } else if e is BodyTooLarge {
            413
        } else if e is UnsupportedTransferEncoding {
            501
        } else {
            400u16
        }),
        reason_phrase_of(e) == (if e is HeadTooLarge || e is TooManyHeaders {
            "Request Header Fields Too Large"@
        } else if e is BodyTooLarge {
            "Payload Too Large"@
        } else if e is UnsupportedTransferEncoding {
            "Transfer Encoding Unsupported"@
        } else if e is InvalidContentLength {
            "Bad Content-Length"@
        } else if e is AmbiguousFraming {
            "Bad Request Framing"@
        } else if e is MissingHost || e is HostMismatch {
            "HNS Host Header Mismatch"@
        } else if e is TargetMismatch {
            "HNS Request Mismatch"@
        } else {
            "Bad Request"@
        }),
{
}

/// A head that is parsed is the one that is meant, and so is a fault.
pub proof fn parsed_heads_agree(
    r: Result<RequestHead, Http1Error>,
    v: Result<RequestHeadView, Http1Error>,
)
    ensures
        same_head(r, v) <==> {
            &&& r is Ok <==> v is Ok
            &&& r is Ok ==> r->Ok_0@ == v->Ok_0
            &&& r is Err ==> r->Err_0 == v->Err_0
        },
{
}

/// Lines, blocks and heads are parsed as they are meant, and values are found by name.
pub proof fn heads_are_parsed(
    bytes: &[u8],
    line: Option<Header>,
    request: Result<RequestLine, Http1Error>,
    block: Result<Vec<Header>, Http1Error>,
    head: Result<RequestHead, Http1Error>,
    parsed: ParsedRequest,
    accepted: Result<RequestHead, Http1Error>,
    of: &RequestHead,
    at: Option<&Authority>,
    valid: Result<RequestTarget, Http1Error>,
)
    requires
        call_ensures(parse_header_line, (bytes,), line),
        call_ensures(parse_request_line, (bytes,), request),
        call_ensures(parse_header_block, (bytes,), block),
        call_ensures(parse_request_head, (bytes,), head),
        call_ensures(accept_request_head, (bytes, parsed), accepted),
        call_ensures(RequestHead::validated_target, (of, at), valid),
    ensures
        line is Some <==> header_line(bytes@) is Some,
        line is Some ==> line->Some_0@ == header_line(bytes@)->Some_0,
        request is Ok <==> request_line(bytes@) is Ok,
        request is Ok ==> request->Ok_0@ == request_line(bytes@)->Ok_0,
        request is Err ==> request->Err_0 == request_line(bytes@)->Err_0,
        block is Ok <==> header_block(bytes@) is Ok,
        block is Ok ==> header_views(block->Ok_0@) == header_block(bytes@)->Ok_0,
        block is Err ==> block->Err_0 == header_block(bytes@)->Err_0,
        same_head(head, request_head_of(bytes@, httparse_outcome(bytes@, 256))),
        same_head(accepted, request_head_of(bytes@, parsed@)),
        target::same_target(valid, validated_target_of(of@, authority_view(at))),
{
}

/// Each fault is told in its own words.
pub proof fn faults_of_requests_have_their_words(e: Http1Error)
    ensures
        message_of(e) == (match e {
            Http1Error::Io(_) => "request I/O failed"@,
            Http1Error::UnexpectedEof => "request ended before it was complete"@,
            Http1Error::HeadTooLarge => "request head is too large"@,
            Http1Error::TooManyHeaders => "request has too many headers"@,
            Http1Error::InvalidRequestLine => "invalid HTTP request line"@,
            Http1Error::UnsupportedHttpVersion => "unsupported HTTP version"@,
            Http1Error::InvalidHeader => "invalid HTTP request header"@,
            Http1Error::DuplicateProxyAuthorization => "duplicate Proxy-Authorization header"@,
            Http1Error::InvalidTarget => "invalid request target"@,
            Http1Error::InvalidAuthority => "invalid request authority"@,
            Http1Error::TargetMismatch => "request target does not match the CONNECT authority"@,
            Http1Error::MissingHost => "Host header is required"@,
            Http1Error::HostMismatch => "Host header does not match the request target"@,
            Http1Error::InvalidContentLength => "invalid or duplicate Content-Length"@,
            Http1Error::AmbiguousFraming => "ambiguous HTTP request body framing"@,
            Http1Error::UnsupportedTransferEncoding => "unsupported Transfer-Encoding"@,
            Http1Error::BodyTooLarge => "request body is too large"@,
            Http1Error::UnexpectedBodyEof => "request body ended before it was complete"@,
            Http1Error::InvalidChunkedBody => "invalid chunked request body"@,
            Http1Error::TrailersTooLarge => "chunked request trailers are too large"@,
        }),
{
}

/// Each kind of failure has its name.
pub proof fn kinds_of_failure_have_their_names(kind: IoKind)
    ensures
        io_kind_name(kind) == (match kind {
            IoKind::NotFound => "NotFound"@,
            IoKind::PermissionDenied => "PermissionDenied"@,
            IoKind::ConnectionRefused => "ConnectionRefused"@,
            IoKind::ConnectionReset => "ConnectionReset"@,
            IoKind::HostUnreachable => "HostUnreachable"@,
            IoKind::NetworkUnreachable => "NetworkUnreachable"@,
            IoKind::ConnectionAborted => "ConnectionAborted"@,
            IoKind::NotConnected => "NotConnected"@,
            IoKind::AddrInUse => "AddrInUse"@,
            IoKind::AddrNotAvailable => "AddrNotAvailable"@,
            IoKind::NetworkDown => "NetworkDown"@,
            IoKind::BrokenPipe => "BrokenPipe"@,
            IoKind::AlreadyExists => "AlreadyExists"@,
            IoKind::WouldBlock => "WouldBlock"@,
            IoKind::NotADirectory => "NotADirectory"@,
            IoKind::IsADirectory => "IsADirectory"@,
            IoKind::DirectoryNotEmpty => "DirectoryNotEmpty"@,
            IoKind::ReadOnlyFilesystem => "ReadOnlyFilesystem"@,
            IoKind::StaleNetworkFileHandle => "StaleNetworkFileHandle"@,
            IoKind::InvalidInput => "InvalidInput"@,
            IoKind::InvalidData => "InvalidData"@,
            IoKind::TimedOut => "TimedOut"@,
            IoKind::WriteZero => "WriteZero"@,
            IoKind::StorageFull => "StorageFull"@,
            IoKind::NotSeekable => "NotSeekable"@,
            IoKind::QuotaExceeded => "QuotaExceeded"@,
            IoKind::FileTooLarge => "FileTooLarge"@,
            IoKind::ResourceBusy => "ResourceBusy"@,
            IoKind::ExecutableFileBusy => "ExecutableFileBusy"@,
            IoKind::Deadlock => "Deadlock"@,
            IoKind::CrossesDevices => "CrossesDevices"@,
            IoKind::TooManyLinks => "TooManyLinks"@,
            IoKind::InvalidFilename => "InvalidFilename"@,
            IoKind::ArgumentListTooLong => "ArgumentListTooLong"@,
            IoKind::Interrupted => "Interrupted"@,
            IoKind::Unsupported => "Unsupported"@,
            IoKind::UnexpectedEof => "UnexpectedEof"@,
            IoKind::OutOfMemory => "OutOfMemory"@,
            IoKind::Other => "Other"@,
            IoKind::Uncategorized => "Uncategorized"@,
        }),
{
}

} // verus!

//! Request bodies: framing, fixed length and chunked transfer coding.

use crate::http1;
use crate::http1::{Header, Http1Error, Input, MAX_REQUEST_HEADERS};
use crate::text;
use vstd::prelude::*;

verus! {

pub const MAX_CHUNK_LINE_BYTES: usize = 8192;

pub const MAX_CHUNK_TRAILER_BYTES: usize = 65536;

#[derive(Clone, Copy, Debug, PartialEq, Eq, Structural)]
pub enum BodyFraming {
    NoBody,
    ContentLength(u64),
    Chunked,
}

// ---------------------------------------------------------------------
// Framing
// ---------------------------------------------------------------------

/// The number that a `Content-Length` value denotes.
pub open spec fn content_length_of(value: Seq<char>) -> Option<u64> {
    if value.len() > 0 && text::all_digits(value) && text::number(value, 10) <= u64::MAX {
        Some(text::number(value, 10) as u64)
    } else {
        None
    }
}

/// How the fields frame the body: by a single length, by a single `chunked`
/// coding, or not at all; never by both.
pub open spec fn framing_of(headers: Seq<http1::HeaderView>) -> Result<BodyFraming, Http1Error> {
    let lengths = http1::values_of(headers, "content-length"@);
    let codings = http1::values_of(headers, "transfer-encoding"@);
    if lengths.len() > 1 || (lengths.len() == 1 && content_length_of(lengths[0]) is None) {
        Err(Http1Error::InvalidContentLength)
    } else if codings.len() > 0 {
        if lengths.len() == 1 {
            Err(Http1Error::AmbiguousFraming)
        } else if codings.len() == 1 && text::eq_ignore_case(codings[0], "chunked"@) {
            Ok(BodyFraming::Chunked)
        } else {
            Err(Http1Error::UnsupportedTransferEncoding)
        }
    } else if lengths.len() == 1 {
        Ok(BodyFraming::ContentLength(content_length_of(lengths[0])->0))
    } else {
        Ok(BodyFraming::NoBody)
    }
}

pub fn parse_content_length(value: &str) -> (r: Result<u64, Http1Error>)
    ensures
        r == (match content_length_of(value@) {
            Some(n) => Ok::<u64, Http1Error>(n),
            None => Err(Http1Error::InvalidContentLength),
        }),
{
    let chars = text::to_chars(value);
    if chars.len() == 0 || !text::are_digits(chars.as_slice()) {
        return Err(Http1Error::InvalidContentLength);
    }
    match text::parse_number(chars.as_slice(), 10) {
        Some(n) => Ok(n),
        None => Err(Http1Error::InvalidContentLength),
    }
}

/// Determines how the body of a request is framed.
pub fn determine_body_framing(headers: &[Header]) -> (r: Result<BodyFraming, Http1Error>)
    ensures
        r == framing_of(http1::header_views(headers@)),
{
    let lengths = http1::field_values(headers, "content-length");
    assert(http1::texts(lengths@).len() == lengths@.len());
    if lengths.len() > 1 {
        return Err(Http1Error::InvalidContentLength);
    }
    let length: Option<u64> = if lengths.len() == 1 {
        assert(http1::texts(lengths@)[0] == lengths@[0]@);
        match parse_content_length(lengths[0]) {
            Ok(n) => Some(n),
            Err(e) => {
                return Err(e);
            },
        }
    } else {
        None
    };
    let codings = http1::field_values(headers, "transfer-encoding");
    assert(http1::texts(codings@).len() == codings@.len());
    if codings.len() > 0 {
        if length.is_some() {
            return Err(Http1Error::AmbiguousFraming);
        }
        assert(http1::texts(codings@)[0] == codings@[0]@);
        if codings.len() != 1 || !text::same_ignore_case(codings[0], "chunked") {
            return Err(Http1Error::UnsupportedTransferEncoding);
        }
        return Ok(BodyFraming::Chunked);
    }
    match length {
        Some(n) => Ok(BodyFraming::ContentLength(n)),
        None => Ok(BodyFraming::NoBody),
    }
}

// ---------------------------------------------------------------------
// Fixed length
// ---------------------------------------------------------------------

/// What a stream gives as a body of fixed length, and how many bytes it takes.
pub open spec fn fixed_body(stream: Seq<u8>, length: u64, max_body_bytes: u64) -> (
    Result<Seq<u8>, Http1Error>,
    int,
) {
    if length > max_body_bytes || length > usize::MAX {
        (Err(Http1Error::BodyTooLarge), 0)
    } else if stream.len() < length {
        (Err(Http1Error::UnexpectedBodyEof), stream.len() as int)
    } else {
        (Ok(stream.take(length as int)), length as int)
    }
}

pub open spec fn same_bytes_result(
    r: Result<Vec<u8>, Http1Error>,
    v: Result<Seq<u8>, Http1Error>,
) -> bool {
    match (r, v) {
        (Ok(b), Ok(w)) => b@ == w,
        (Err(e), Err(f)) => e == f,
        _ => false,
    }
}

/// How many bytes to read for a body of the given length.
pub fn fixed_body_length(length: u64, max_body_bytes: u64) -> (r: Result<usize, Http1Error>)
    ensures
        match r {
            Ok(n) => n == length && length <= max_body_bytes,
            Err(e) => e == Http1Error::BodyTooLarge && (length > max_body_bytes || length
                > usize::MAX),
        },
{
    if length > max_body_bytes || length > usize::MAX as u64 {
        Err(Http1Error::BodyTooLarge)
    } else {
        Ok(length as usize)
    }
}

/// Reads the given number of bytes, or fails at the end of the input.
fn read_exact_body(input: &mut Input, count: usize) -> (r: Result<Vec<u8>, Http1Error>)
    ensures
        ({
            let stream = old(input).remaining();
            if stream.len() < count {
                r == Err::<Vec<u8>, Http1Error>(Http1Error::UnexpectedBodyEof) && final(input).remaining() == stream.skip(stream.len() as int)
            } else {
                r is Ok && r->Ok_0@ == stream.take(count as int) && final(input).remaining()
                    == stream.skip(count as int)
            }
        }),
{
    let ghost stream = input.remaining();
    let mut out: Vec<u8> = Vec::new();
    let mut i: usize = 0;
    assert(stream.skip(0) == stream);
    assert(stream.take(0) == Seq::<u8>::empty());
    while i < count
        invariant
            i <= count,
            i <= stream.len(),
            stream == old(input).remaining(),
            out@ == stream.take(i as int),
            input.remaining() == stream.skip(i as int),
        decreases count - i,
    {
        match input.next_byte() {
            None => {
                return Err(Http1Error::UnexpectedBodyEof);
            },
            Some(b) => {
                out.push(b);
                i += 1;
                assert(stream.take(i as int) == stream.take(i as int - 1).push(b));
                assert(stream.skip(i as int) == stream.skip(i as int - 1).drop_first());
            },
        }
    }
    Ok(out)
}

/// Reads a body of fixed length.
pub fn read_fixed_body(input: &mut Input, length: u64, max_body_bytes: u64) -> (r: Result<
    Vec<u8>,
    Http1Error,
>)
    ensures
        ({
            let (body, taken) = fixed_body(old(input).remaining(), length, max_body_bytes);
            same_bytes_result(r, body) && final(input).remaining() == old(input).remaining().skip(
                taken,
            )
        }),
{
    assert(input.remaining().skip(0) == input.remaining());
    match fixed_body_length(length, max_body_bytes) {
        Err(e) => Err(e),
        Ok(n) => read_exact_body(input, n),
    }
}

// ---------------------------------------------------------------------
// Lines
// ---------------------------------------------------------------------

/// The line that a stream begins with, without its line end, and how many bytes
/// it takes, once `i` bytes without a line feed have gone by. A line feed
/// without a carriage return, and a line over the limit, are refused.
pub open spec fn line_from(s: Seq<u8>, i: int, limit: int) -> (Result<Seq<u8>, Http1Error>, int)
    decreases s.len() - i,
{
    if i >= limit {
        (Err(Http1Error::InvalidChunkedBody), i)
    } else if i >= s.len() {
        (Err(Http1Error::UnexpectedBodyEof), i)
    } else if s[i] == 0x0a {
        if i > 0 && s[i - 1] == 0x0d {
            (Ok(s.take(i - 1)), i + 1)
        } else {
            (Err(Http1Error::InvalidChunkedBody), i + 1)
        }
    } else {
        line_from(s, i + 1, limit)
    }
}

pub open spec fn crlf_line(s: Seq<u8>, limit: int) -> (Result<Seq<u8>, Http1Error>, int) {
    line_from(s, 0, limit)
}

pub proof fn lemma_line_from(s: Seq<u8>, i: int, limit: int)
    requires
        0 <= i <= s.len(),
        0 <= limit,
        i <= limit,
    ensures
        i <= line_from(s, i, limit).1 <= s.len(),
        line_from(s, i, limit).1 <= limit,
        match line_from(s, i, limit).0 {
            Ok(l) => {
                &&& l == s.take(l.len() as int)
                &&& line_from(s, i, limit).1 == l.len() + 2
            },
            Err(_) => true,
        },
    decreases s.len() - i,
{
    if i < limit && i < s.len() && s[i] != 0x0a {
        lemma_line_from(s, i + 1, limit);
    }
}

/// Collects one line, byte by byte.
pub struct CrlfLineReader {
    line: Vec<u8>,
    limit: usize,
}

/// What a further byte of a line leads to.
pub open spec fn line_progress(received: Seq<u8>, limit: int) -> Option<
    Result<Seq<u8>, Http1Error>,
> {
    let n = received.len();
    if n > 0 && received.last() == 0x0a {
        if n >= 2 && received[n - 2] == 0x0d {
            Some(Ok(received.take(n - 2)))
        } else {
            Some(Err(Http1Error::InvalidChunkedBody))
        }
    } else if n >= limit {
        Some(Err(Http1Error::InvalidChunkedBody))
    } else {
        None
    }
}

impl CrlfLineReader {
    pub closed spec fn received(self) -> Seq<u8> {
        self.line@
    }

    pub closed spec fn limit_spec(self) -> usize {
        self.limit
    }

    pub fn new(limit: usize) -> (r: Self)
        ensures
            r.received().len() == 0,
            r.limit_spec() == limit,
    {
        CrlfLineReader { line: Vec::new(), limit }
    }

    /// Takes one byte. `Some` is the outcome: the line that this byte
    /// completes, or the error that ends the reading. A byte past the limit is
    /// not taken.
    pub fn push(&mut self, byte: u8) -> (r: Option<Result<Vec<u8>, Http1Error>>)
        ensures
            final(self).limit_spec() == old(self).limit_spec(),
            old(self).received().len() >= old(self).limit_spec() ==> {
                &&& final(self).received() == old(self).received()
                &&& r == Some(Err::<Vec<u8>, Http1Error>(Http1Error::InvalidChunkedBody))
            },
            old(self).received().len() < old(self).limit_spec() ==> {
                &&& final(self).received() == old(self).received().push(byte)
                &&& match (
                    r,
                    line_progress(final(self).received(), old(self).limit_spec() as int),
                ) {
                    (Some(a), Some(b)) => same_bytes_result(a, b),
                    (None, None) => true,
                    _ => false,
                }
            },
    {
        if self.line.len() >= self.limit {
            return Some(Err(Http1Error::InvalidChunkedBody));
        }
        self.line.push(byte);
        let n: usize = self.line.len();
        if byte == 0x0a {
            if n >= 2 && self.line[n - 2] == 0x0d {
                let line = text::bytes_between(self.line.as_slice(), 0, n - 2);
                assert(line@ == self.line@.take(n - 2));
                return Some(Ok(line));
            }
            return Some(Err(Http1Error::InvalidChunkedBody));
        }
        if n >= self.limit {
            return Some(Err(Http1Error::InvalidChunkedBody));
        }
        None
    }
}

/// Reads one line of at most `limit` bytes, line end included.
pub fn read_crlf_line(input: &mut Input, limit: usize) -> (r: Result<Vec<u8>, Http1Error>)
    ensures
        ({
            let (line, taken) = crlf_line(old(input).remaining(), limit as int);
            same_bytes_result(r, line) && final(input).remaining() == old(input).remaining().skip(
                taken,
            )
        }),
{
    let ghost stream = input.remaining();
    assert(stream.skip(0) == stream);
    assert(stream.take(0) == Seq::<u8>::empty());
    let mut reader = CrlfLineReader::new(limit);
    let mut taken: usize = 0;
    while taken < limit
        invariant
            taken <= limit,
            taken <= stream.len(),
            stream == old(input).remaining(),
            reader.limit_spec() == limit,
            reader.received() == stream.take(taken as int),
            input.remaining() == stream.skip(taken as int),
            crlf_line(stream, limit as int) == line_from(stream, taken as int, limit as int),
        decreases limit - taken,
    {
        match input.next_byte() {
            None => {
                return Err(Http1Error::UnexpectedBodyEof);
            },
            Some(b) => {
                let progress = reader.push(b);
                taken += 1;
                proof {
                    let got = stream.take(taken as int);
                    assert(got == stream.take(taken as int - 1).push(b));
                    assert(stream.skip(taken as int) == stream.skip(taken as int - 1).drop_first());
                    if taken >= 2 {
                        assert(got[taken - 2] == stream[taken - 2]);
                        assert(got.take(taken - 2) == stream.take(taken - 2));
                    }
                    assert(got.last() == b && stream[taken - 1] == b);
                    assert(b != 0x0a ==> line_from(stream, taken - 1, limit as int) == line_from(
                        stream,
                        taken as int,
                        limit as int,
                    ));
                }
                match progress {
                    Some(outcome) => {
                        return outcome;
                    },
                    None => {},
                }
            },
        }
    }
    Err(Http1Error::InvalidChunkedBody)
}


// ---------------------------------------------------------------------
// Chunk lines
// ---------------------------------------------------------------------

pub open spec fn is_quoted_pair_byte(b: u8) -> bool {
    b == 9 || 0x20 <= b <= 0x7e
}

pub open spec fn is_quoted_text_byte(b: u8) -> bool {
    b == 9 || b == 0x20 || b == 0x21 || 0x23 <= b <= 0x5b || 0x5d <= b <= 0x7e
}

/// Reads quoted text: `Some` tells whether an escape is still open, `None` that
/// a byte may not stand where it does.
pub open spec fn quoted_text(s: Seq<u8>) -> Option<bool>
    decreases s.len(),
{
    if s.len() == 0 {
        Some(false)
    } else {
        match quoted_text(s.drop_last()) {
            None => None,
            Some(escaped) => if escaped {
                if is_quoted_pair_byte(s.last()) {
                    Some(false)
                } else {
                    None
                }
            } else if s.last() == 0x5c {
                Some(true)
            } else if is_quoted_text_byte(s.last()) {
                Some(false)
            } else {
                None
            },
        }
    }
}

/// Quoted text between two quotation marks, with no escape left open.
pub open spec fn is_quoted_string(v: Seq<u8>) -> bool {
    &&& v.len() >= 2
    &&& v[0] == 0x22
    &&& v.last() == 0x22
    &&& quoted_text(v.subrange(1, v.len() - 1)) == Some(false)
}

/// A token, or a token with a token or a quoted string as its value.
pub open spec fn is_chunk_extension(e: Seq<u8>) -> bool {
    let k = text::find(e, 0x3du8);
    let value = e.skip(k + 1);
    http1::is_token(e.take(k)) && (k == e.len() || http1::is_token(value) || is_quoted_string(
        value,
    ))
}

/// The size that a chunk line announces; extensions after semicolons are
/// checked and ignored.
pub open spec fn chunk_size(line: Seq<u8>) -> Option<u64> {
    let p = text::split(line, 0x3bu8);
    let size = text::ascii_chars(p[0]);
    if size.len() > 0 && text::all_hex_digits(size) && text::number(size, 16) <= u64::MAX && (
    forall|i: int| 1 <= i < p.len() ==> is_chunk_extension(#[trigger] p[i])) {
        Some(text::number(size, 16) as u64)
    } else {
        None
    }
}

proof fn lemma_quoted_failure(s: Seq<u8>, i: int)
    requires
        0 <= i <= s.len(),
        quoted_text(s.take(i)) is None,
    ensures
        quoted_text(s) is None,
    decreases s.len() - i,
{
    if i == s.len() {
        assert(s.take(i) == s);
    } else {
        assert(s.take(i + 1).drop_last() == s.take(i));
        lemma_quoted_failure(s, i + 1);
    }
}

pub fn is_valid_quoted_string(value: &[u8]) -> (r: bool)
    ensures
        r == is_quoted_string(value@),
{
    let n: usize = value.len();
    if n < 2 || value[0] != 0x22 || value[n - 1] != 0x22 {
        return false;
    }
    let ghost inner = value@.subrange(1, n - 1);
    let mut escaped = false;
    let mut i: usize = 1;
    assert(inner.take(0) == Seq::<u8>::empty());
    while i < n - 1
        invariant
            1 <= i <= n - 1,
            n == value@.len(),
            n >= 2,
            value@[0] == 0x22 && value@.last() == 0x22,
            inner == value@.subrange(1, n - 1),
            quoted_text(inner.take(i - 1)) == Some(escaped),
        decreases n - i,
    {
        let b: u8 = value[i];
        proof {
            assert(inner.take(i as int).drop_last() == inner.take(i - 1));
            assert(inner.take(i as int).last() == b);
        }
        if escaped {
            if !(b == 9 || (0x20 <= b && b <= 0x7e)) {
                proof {
                    lemma_quoted_failure(inner, i as int);
                }
                return false;
            }
            escaped = false;
        } else if b == 0x5c {
            escaped = true;
        } else if !(b == 9 || b == 0x20 || b == 0x21 || (0x23 <= b && b <= 0x5b) || (0x5d <= b && b
            <= 0x7e)) {
            proof {
                lemma_quoted_failure(inner, i as int);
            }
            return false;
        }
        i += 1;
    }
    assert(inner.take(i - 1) == inner);
    !escaped
}

fn is_valid_chunk_extension(e: &[u8]) -> (r: bool)
    ensures
        r == is_chunk_extension(e@),
{
    let k: usize = text::find_byte(e, 0x3d);
    let name = text::bytes_between(e, 0, k);
    assert(name@ == e@.take(k as int));
    if !http1::is_http_token(name.as_slice()) {
        return false;
    }
    if k == e.len() {
        return true;
    }
    let value = text::bytes_between(e, k + 1, e.len());
    assert(value@ == e@.skip(k as int + 1));
    http1::is_http_token(value.as_slice()) || is_valid_quoted_string(value.as_slice())
}

/// The size that a chunk line announces.
pub fn parse_chunk_size(line: &[u8]) -> (r: Option<u64>)
    ensures
        r == chunk_size(line@),
{
    let pieces = text::split_bytes(line, 0x3b);
    let ghost p = text::split(line@, 0x3bu8);
    proof {
        text::lemma_split_nonempty(line@, 0x3bu8);
        assert(pieces@.map_values(|q: Vec<u8>| q@).len() == pieces@.len());
        assert(pieces@.map_values(|q: Vec<u8>| q@)[0] == pieces@[0]@);
    }
    let size = text::ascii_to_chars(pieces[0].as_slice());
    if size.len() == 0 || !text::are_hex_digits(size.as_slice()) {
        return None;
    }
    let mut i: usize = 1;
    while i < pieces.len()
        invariant
            1 <= i <= pieces@.len() == p.len(),
            p == text::split(line@, 0x3bu8),
            pieces@.map_values(|q: Vec<u8>| q@) == p,
            forall|j: int| 1 <= j < i ==> is_chunk_extension(#[trigger] p[j]),
        decreases pieces.len() - i,
    {
        assert(pieces@.map_values(|q: Vec<u8>| q@)[i as int] == pieces@[i as int]@);
        if !is_valid_chunk_extension(pieces[i].as_slice()) {
            assert(!is_chunk_extension(p[i as int]));
            return None;
        }
        i += 1;
    }
    text::parse_number(size.as_slice(), 16)
}

// ---------------------------------------------------------------------
// Fields that belong to one hop, to the proxy or to the runtime
// ---------------------------------------------------------------------

/// The lower-case names of fields that concern a single connection.
pub open spec fn hop_by_hop_names() -> Seq<Seq<char>> {
    seq![
        "connection"@,
        "keep-alive"@,
        "proxy-authenticate"@,
        "proxy-authorization"@,
        "proxy-connection"@,
        "te"@,
        "trailer"@,
        "transfer-encoding"@,
        "upgrade"@,
    ]
}

pub open spec fn is_hop_name(lower_name: Seq<char>) -> bool {
    text::is_one_of(lower_name, hop_by_hop_names())
}

/// Whether a lower-case name is that of a hop-by-hop field.
pub fn is_hop_by_hop(lower_name: &str) -> (r: bool)
    ensures
        r == is_hop_name(lower_name@),
{
    let ghost names = hop_by_hop_names();
    let r = text::same_text(lower_name, "connection") || text::same_text(lower_name, "keep-alive")
        || text::same_text(lower_name, "proxy-authenticate") || text::same_text(
        lower_name,
        "proxy-authorization",
    ) || text::same_text(lower_name, "proxy-connection") || text::same_text(lower_name, "te")
        || text::same_text(lower_name, "trailer") || text::same_text(
        lower_name,
        "transfer-encoding",
    ) || text::same_text(lower_name, "upgrade");
    proof {
        assert(names[0] == "connection"@ && names[1] == "keep-alive"@ && names[2]
            == "proxy-authenticate"@ && names[3] == "proxy-authorization"@ && names[4]
            == "proxy-connection"@ && names[5] == "te"@ && names[6] == "trailer"@ && names[7]
            == "transfer-encoding"@ && names[8] == "upgrade"@);
        assert(names.len() == 9);
    }
    r
}

/// Whether a field of this name must not leave the proxy, whatever it holds.
pub open spec fn is_private_name(lower_name: Seq<char>) -> bool {
    is_hop_name(lower_name) || "proxy-"@.is_prefix_of(lower_name) || "x-hns-"@.is_prefix_of(
        lower_name,
    )
}

pub fn is_private_field(lower_name: &str) -> (r: bool)
    ensures
        r == is_private_name(lower_name@),
{
    is_hop_by_hop(lower_name) || text::text_starts_with(lower_name, "proxy-")
        || text::text_starts_with(lower_name, "x-hns-")
}

// ---------------------------------------------------------------------
// Trailers
// ---------------------------------------------------------------------

pub open spec fn is_trailer_name(name: Seq<char>) -> bool {
    let low = text::lower(name);
    !is_private_name(low) && low != "content-length"@ && low != "host"@
}

/// Whether a trailer line may follow the last chunk, after `count` others.
pub open spec fn is_trailer_line(line: Seq<u8>, count: int) -> bool {
    &&& count < MAX_REQUEST_HEADERS
    &&& http1::header_line(line) is Some
    &&& is_trailer_name(http1::header_line(line)->0.name)
}

fn accept_trailer_line(line: &[u8], count: usize) -> (r: bool)
    ensures
        r == is_trailer_line(line@, count as int),
{
    if count >= MAX_REQUEST_HEADERS {
        return false;
    }
    match http1::parse_header_line(line) {
        None => false,
        Some(h) => {
            let low = text::to_lower(h.name());
            !is_private_field(low.as_str()) && !text::same_text(low.as_str(), "content-length")
                && !text::same_text(low.as_str(), "host")
        },
    }
}

/// How many bytes the next trailer line may take.
pub open spec fn trailer_limit(consumed: int) -> int {
    let left = MAX_CHUNK_TRAILER_BYTES - consumed;
    if left < MAX_CHUNK_LINE_BYTES {
        left
    } else {
        MAX_CHUNK_LINE_BYTES as int
    }
}

/// Reads trailer lines up to the empty one, after `count` lines that took
/// `consumed` bytes: whether they are accepted, and how many bytes they take.
pub open spec fn trailers_from(s: Seq<u8>, consumed: int, count: int) -> (
    Result<(), Http1Error>,
    int,
)
    decreases MAX_REQUEST_HEADERS - count,
{
    if MAX_CHUNK_TRAILER_BYTES - consumed < 2 {
        (Err(Http1Error::TrailersTooLarge), 0)
    } else {
        let (line, taken) = crlf_line(s, trailer_limit(consumed));
        match line {
            Err(e) => (Err(e), taken),
            Ok(l) => if l.len() == 0 {
                (Ok(()), taken)
            } else if !is_trailer_line(l, count) {
                (Err(Http1Error::InvalidChunkedBody), taken)
            } else {
                let (rest, more) = trailers_from(s.skip(taken), consumed + l.len() + 2, count + 1);
                (rest, taken + more)
            },
        }
    }
}

// ---------------------------------------------------------------------
// Chunks
// ---------------------------------------------------------------------

/// Reads chunks after `total` bytes of body: the rest of the body, and how many
/// bytes it takes.
pub open spec fn chunks_from(s: Seq<u8>, total: int, max_body_bytes: int) -> (
    Result<Seq<u8>, Http1Error>,
    int,
)
    decreases s.len(),
{
    let (line, taken) = crlf_line(s, MAX_CHUNK_LINE_BYTES as int);
    match line {
        Err(e) => (Err(e), taken),
        Ok(l) => match chunk_size(l) {
            None => (Err(Http1Error::InvalidChunkedBody), taken),
            Some(size) => {
                let rest = s.skip(taken);
                if size == 0 {
                    let (end, more) = trailers_from(rest, 0, 0);
                    match end {
                        Ok(()) => (Ok(Seq::empty()), taken + more),
                        Err(e) => (Err(e), taken + more),
                    }
                } else if total + size > max_body_bytes || total + size > usize::MAX {
                    (Err(Http1Error::BodyTooLarge), taken)
                } else if rest.len() < size + 2 {
                    (Err(Http1Error::UnexpectedBodyEof), s.len() as int)
                } else if rest[size as int] != 0x0d || rest[size + 1] != 0x0a {
                    (Err(Http1Error::InvalidChunkedBody), taken + size + 2)
                } else {
                    proof {
                        lemma_line_from(s, 0, MAX_CHUNK_LINE_BYTES as int);
                    }
                    let (body, more) = chunks_from(
                        rest.skip(size + 2),
                        total + size,
                        max_body_bytes,
                    );
                    match body {
                        Ok(b) => (Ok(rest.take(size as int) + b), taken + size + 2 + more),
                        Err(e) => (Err(e), taken + size + 2 + more),
                    }
                }
            },
        },
    }
}

/// What a stream gives as a chunked body, and how many bytes it takes.
pub open spec fn chunked_body(stream: Seq<u8>, max_body_bytes: int) -> (
    Result<Seq<u8>, Http1Error>,
    int,
) {
    chunks_from(stream, 0, max_body_bytes)
}

/// Where in a chunked body a decoder stands.
#[derive(Clone, Copy, Debug, PartialEq, Eq, Structural)]
pub enum ChunkPhase {
    /// A chunk line comes next.
    Size,
    /// So many bytes of data come next.
    Data(usize),
    /// The line end after the data comes next.
    DataEnd,
    /// A trailer line or the final empty line comes next, after `count` lines
    /// that took `consumed` bytes.
    Trailers { consumed: usize, count: usize },
    Done,
}

/// What a decoder needs next.
#[derive(Clone, Copy, Debug, PartialEq, Eq, Structural)]
pub enum ChunkNeed {
    /// One line of at most so many bytes.
    Line(usize),
    /// Exactly so many bytes.
    Bytes(usize),
    Nothing,
}

/// Decodes a chunked body from the lines and blocks of bytes it asks for.
pub struct ChunkedDecoder {
    output: Vec<u8>,
    total: u64,
    max_body_bytes: u64,
    phase: ChunkPhase,
}

pub struct ChunkState {
    pub output: Seq<u8>,
    pub total: int,
    pub max_body_bytes: int,
    pub phase: ChunkPhase,
}

impl View for ChunkedDecoder {
    type V = ChunkState;

    closed spec fn view(&self) -> ChunkState {
        ChunkState {
            output: self.output@,
            total: self.total as int,
            max_body_bytes: self.max_body_bytes as int,
            phase: self.phase,
        }
    }
}

impl ChunkState {
    pub open spec fn in_phase(self, phase: ChunkPhase) -> ChunkState {
        ChunkState { phase, ..self }
    }

    pub open spec fn need(self) -> Result<ChunkNeed, Http1Error> {
        match self.phase {
            ChunkPhase::Size => Ok(ChunkNeed::Line(MAX_CHUNK_LINE_BYTES)),
            ChunkPhase::Data(n) => Ok(ChunkNeed::Bytes(n)),
            ChunkPhase::DataEnd => Ok(ChunkNeed::Bytes(2)),
            ChunkPhase::Trailers { consumed, .. } => if MAX_CHUNK_TRAILER_BYTES - consumed < 2 {
                Err(Http1Error::TrailersTooLarge)
            } else {
                Ok(ChunkNeed::Line(trailer_limit(consumed as int) as usize))
            },
            ChunkPhase::Done => Ok(ChunkNeed::Nothing),
        }
    }

    /// The state after a line.
    pub open spec fn after_line(self, line: Seq<u8>) -> Result<ChunkState, Http1Error> {
        match self.phase {
            ChunkPhase::Size => match chunk_size(line) {
                None => Err(Http1Error::InvalidChunkedBody),
                Some(size) => if size == 0 {
                    Ok(self.in_phase(ChunkPhase::Trailers { consumed: 0, count: 0 }))
                } else if self.total + size > self.max_body_bytes || self.total + size
                    > usize::MAX {
                    Err(Http1Error::BodyTooLarge)
                } else {
                    Ok(
                        ChunkState {
                            total: self.total + size,
                            phase: ChunkPhase::Data(size as usize),
                            ..self
                        },
                    )
                },
            },
            ChunkPhase::Trailers { consumed, count } => if line.len() == 0 {
                Ok(self.in_phase(ChunkPhase::Done))
            } else if consumed + line.len() + 2 > MAX_CHUNK_TRAILER_BYTES || !is_trailer_line(
                line,
                count as int,
            ) {
                Err(Http1Error::InvalidChunkedBody)
            } else {
                Ok(
                    self.in_phase(
                        ChunkPhase::Trailers {
                            consumed: (consumed + line.len() + 2) as usize,
                            count: (count + 1) as usize,
                        },
                    ),
                )
            },
            _ => Err(Http1Error::InvalidChunkedBody),
        }
    }

    /// The state after a block of bytes.
    pub open spec fn after_bytes(self, bytes: Seq<u8>) -> Result<ChunkState, Http1Error> {
        match self.phase {
            ChunkPhase::Data(n) => if bytes.len() == n {
                Ok(ChunkState { output: self.output + bytes, phase: ChunkPhase::DataEnd, ..self })
            } else {
                Err(Http1Error::InvalidChunkedBody)
            },
            ChunkPhase::DataEnd => if bytes == seq![0x0du8, 0x0au8] {
                Ok(self.in_phase(ChunkPhase::Size))
            } else {
                Err(Http1Error::InvalidChunkedBody)
            },
            _ => Err(Http1Error::InvalidChunkedBody),
        }
    }

    /// What a decoder in this state makes of a stream: the whole body, and how
    /// many bytes of the stream it takes.
    pub open spec fn decode(self, s: Seq<u8>) -> (Result<Seq<u8>, Http1Error>, int) {
        match self.phase {
            ChunkPhase::Size => after_output(
                self.output,
                chunks_from(s, self.total, self.max_body_bytes),
                0,
            ),
            ChunkPhase::Data(n) => if s.len() < n + 2 {
                (Err(Http1Error::UnexpectedBodyEof), s.len() as int)
            } else if s[n as int] != 0x0d || s[n + 1] != 0x0a {
                (Err(Http1Error::InvalidChunkedBody), n + 2)
            } else {
                after_output(
                    self.output + s.take(n as int),
                    chunks_from(s.skip(n + 2), self.total, self.max_body_bytes),
                    n + 2,
                )
            },
            ChunkPhase::DataEnd => if s.len() < 2 {
                (Err(Http1Error::UnexpectedBodyEof), s.len() as int)
            } else if s[0] != 0x0d || s[1] != 0x0a {
                (Err(Http1Error::InvalidChunkedBody), 2)
            } else {
                after_output(
                    self.output,
                    chunks_from(s.skip(2), self.total, self.max_body_bytes),
                    2,
                )
            },
            ChunkPhase::Trailers { consumed, count } => {
                let (end, taken) = trailers_from(s, consumed as int, count as int);
                match end {
                    Ok(()) => (Ok(self.output), taken),
                    Err(e) => (Err(e), taken),
                }
            },
            ChunkPhase::Done => (Ok(self.output), 0),
        }
    }
}

pub open spec fn after_output(
    output: Seq<u8>,
    rest: (Result<Seq<u8>, Http1Error>, int),
    taken: int,
) -> (Result<Seq<u8>, Http1Error>, int) {
    match rest.0 {
        Ok(b) => (Ok(output + b), taken + rest.1),
        Err(e) => (Err(e), taken + rest.1),
    }
}

pub open spec fn same_state(
    old_state: ChunkState,
    new_state: ChunkState,
    r: Result<(), Http1Error>,
    v: Result<ChunkState, Http1Error>,
) -> bool {
    match (r, v) {
        (Ok(()), Ok(w)) => new_state == w,
        (Err(e), Err(f)) => e == f && new_state == old_state,
        _ => false,
    }
}

impl ChunkedDecoder {
    pub fn new(max_body_bytes: u64) -> (r: Self)
        ensures
            r@ == (ChunkState {
                output: Seq::empty(),
                total: 0,
                max_body_bytes: max_body_bytes as int,
                phase: ChunkPhase::Size,
            }),
    {
        let r = ChunkedDecoder {
            output: Vec::new(),
            total: 0,
            max_body_bytes,
            phase: ChunkPhase::Size,
        };
        assert(r@.output == Seq::<u8>::empty());
        r
    }

    /// What to read next, or why there is nothing more to read.
    pub fn need(&self) -> (r: Result<ChunkNeed, Http1Error>)
        ensures
            r == self@.need(),
    {
        match self.phase {
            ChunkPhase::Size => Ok(ChunkNeed::Line(MAX_CHUNK_LINE_BYTES)),
            ChunkPhase::Data(n) => Ok(ChunkNeed::Bytes(n)),
            ChunkPhase::DataEnd => Ok(ChunkNeed::Bytes(2)),
            ChunkPhase::Trailers { consumed, .. } => {
                if consumed > MAX_CHUNK_TRAILER_BYTES || MAX_CHUNK_TRAILER_BYTES - consumed < 2 {
                    return Err(Http1Error::TrailersTooLarge);
                }
                let left: usize = MAX_CHUNK_TRAILER_BYTES - consumed;
                Ok(
                    ChunkNeed::Line(
                        if left < MAX_CHUNK_LINE_BYTES {
                            left
                        } else {
                            MAX_CHUNK_LINE_BYTES
                        },
                    ),
                )
            },
            ChunkPhase::Done => Ok(ChunkNeed::Nothing),
        }
    }

    /// Takes the line that was asked for.
    pub fn line(&mut self, line: &[u8]) -> (r: Result<(), Http1Error>)
        ensures
            same_state(old(self)@, final(self)@, r, old(self)@.after_line(line@)),
    {
        match self.phase {
            ChunkPhase::Size => match parse_chunk_size(line) {
                None => Err(Http1Error::InvalidChunkedBody),
                Some(size) => {
                    if size == 0 {
                        self.phase = ChunkPhase::Trailers { consumed: 0, count: 0 };
                        return Ok(());
                    }
                    match self.total.checked_add(size) {
                        None => Err(Http1Error::BodyTooLarge),
                        Some(total) => {
                            if total > self.max_body_bytes || total > usize::MAX as u64 {
                                return Err(Http1Error::BodyTooLarge);
                            }
                            self.total = total;
                            self.phase = ChunkPhase::Data(size as usize);
                            Ok(())
                        },
                    }
                },
            },
            ChunkPhase::Trailers { consumed, count } => {
                if line.len() == 0 {
                    self.phase = ChunkPhase::Done;
                    return Ok(());
                }
                if consumed > MAX_CHUNK_TRAILER_BYTES || line.len() > MAX_CHUNK_TRAILER_BYTES
                    || consumed + line.len() + 2 > MAX_CHUNK_TRAILER_BYTES || !accept_trailer_line(
                    line,
                    count,
                ) {
                    return Err(Http1Error::InvalidChunkedBody);
                }
                self.phase = ChunkPhase::Trailers {
                    consumed: consumed + line.len() + 2,
                    count: count + 1,
                };
                Ok(())
            },
            _ => Err(Http1Error::InvalidChunkedBody),
        }
    }

    /// Takes the bytes that were asked for.
    pub fn bytes(&mut self, bytes: &[u8]) -> (r: Result<(), Http1Error>)
        ensures
            same_state(old(self)@, final(self)@, r, old(self)@.after_bytes(bytes@)),
    {
        match self.phase {
            ChunkPhase::Data(n) => {
                if bytes.len() != n {
                    return Err(Http1Error::InvalidChunkedBody);
                }
                text::push_bytes(&mut self.output, bytes);
                self.phase = ChunkPhase::DataEnd;
                Ok(())
            },
            ChunkPhase::DataEnd => {
                if bytes.len() == 2 && bytes[0] == 0x0d && bytes[1] == 0x0a {
                    assert(bytes@ == seq![0x0du8, 0x0au8]);
                    self.phase = ChunkPhase::Size;
                    Ok(())
                } else {
                    Err(Http1Error::InvalidChunkedBody)
                }
            },
            _ => Err(Http1Error::InvalidChunkedBody),
        }
    }

    /// The body so far.
    pub fn into_body(self) -> (r: Vec<u8>)
        ensures
            r@ == self@.output,
    {
        self.output
    }
}


// ---------------------------------------------------------------------
// Reading bodies
// ---------------------------------------------------------------------

/// Reads a chunked body up to the end of its trailers.
pub fn read_chunked_body(input: &mut Input, max_body_bytes: u64) -> (r: Result<
    Vec<u8>,
    Http1Error,
>)
    ensures
        ({
            let (body, taken) = chunked_body(old(input).remaining(), max_body_bytes as int);
            same_bytes_result(r, body) && final(input).remaining() == old(input).remaining().skip(
                taken,
            )
        }),
{
    let ghost stream = input.remaining();
    let ghost whole = chunked_body(stream, max_body_bytes as int);
    let ghost mut taken: int = 0;
    let mut decoder = ChunkedDecoder::new(max_body_bytes);
    proof {
        assert(stream.skip(0) == stream);
        match whole.0 {
            Ok(b) => {
                assert(Seq::<u8>::empty() + b == b);
            },
            Err(_) => {},
        }
    }
    loop
        invariant
            0 <= taken <= stream.len(),
            stream == old(input).remaining(),
            input.remaining() == stream.skip(taken),
            whole == chunked_body(stream, max_body_bytes as int),
            whole.0 == decoder@.decode(input.remaining()).0,
            whole.1 == taken + decoder@.decode(input.remaining()).1,
            decoder@.total >= 0,
            match decoder@.phase {
                ChunkPhase::Data(n) => n > 0,
                ChunkPhase::Trailers { consumed, count } => consumed <= MAX_CHUNK_TRAILER_BYTES
                    && count <= MAX_REQUEST_HEADERS,
                _ => true,
            },
        decreases input.remaining().len(),
    {
        let ghost before = decoder@;
        let ghost s = input.remaining();
        let need = match decoder.need() {
            Ok(need) => need,
            Err(e) => {
                return Err(e);
            },
        };
        match need {
            ChunkNeed::Nothing => {
                return Ok(decoder.into_body());
            },
            ChunkNeed::Line(limit) => {
                proof {
                    lemma_line_from(s, 0, limit as int);
                }
                let line = match read_crlf_line(input, limit) {
                    Ok(line) => line,
                    Err(e) => {
                        proof {
                            assert(s.skip(crlf_line(s, limit as int).1) == stream.skip(
                                taken + crlf_line(s, limit as int).1,
                            ));
                        }
                        return Err(e);
                    },
                };
                proof {
                    let n = crlf_line(s, limit as int).1;
                    assert(s.skip(n) == stream.skip(taken + n));
                    taken = taken + n;
                }
                match decoder.line(line.as_slice()) {
                    Ok(()) => {},
                    Err(e) => {
                        return Err(e);
                    },
                }
                proof {
                    let n = crlf_line(s, limit as int).1;
                    lemma_decode_line(before, decoder@, s, line@);
                }
            },
            ChunkNeed::Bytes(count) => {
                let bytes = match read_exact_body(input, count) {
                    Ok(bytes) => bytes,
                    Err(e) => {
                        proof {
                            assert(s.skip(s.len() as int) == stream.skip(taken + s.len()));
                        }
                        return Err(e);
                    },
                };
                proof {
                    assert(s.skip(count as int) == stream.skip(taken + count));
                    taken = taken + count;
                }
                match decoder.bytes(bytes.as_slice()) {
                    Ok(()) => {},
                    Err(e) => {
                        proof {
                            if before.phase is DataEnd {
                                assert(bytes@[0] == s[0] && bytes@[1] == s[1]);
                                if s[0] == 0x0d && s[1] == 0x0a {
                                    assert(bytes@ == seq![0x0du8, 0x0au8]);
                                }
                            }
                        }
                        return Err(e);
                    },
                }
                proof {
                    lemma_decode_bytes(before, decoder@, s, count as int);
                }
            },
        }
    }
}

proof fn lemma_decode_line(before: ChunkState, after: ChunkState, s: Seq<u8>, line: Seq<u8>)
    requires
        before.total >= 0,
        before.after_line(line) == Ok::<ChunkState, Http1Error>(after),
        ({
            let limit = match before.phase {
                ChunkPhase::Size => MAX_CHUNK_LINE_BYTES as int,
                ChunkPhase::Trailers { consumed, .. } => trailer_limit(consumed as int),
                _ => 0,
            };
            crlf_line(s, limit).0 == Ok::<Seq<u8>, Http1Error>(line) && limit >= 2
        }),
        match before.phase {
            ChunkPhase::Trailers { consumed, count } => consumed + 2 <= MAX_CHUNK_TRAILER_BYTES
                && count <= MAX_REQUEST_HEADERS,
            _ => true,
        },
    ensures
        after.decode(s.skip(line.len() as int + 2)).0 == before.decode(s).0,
        after.decode(s.skip(line.len() as int + 2)).1 + line.len() + 2 == before.decode(s).1,
{
    match before.phase {
        ChunkPhase::Size => {
            lemma_line_from(s, 0, MAX_CHUNK_LINE_BYTES as int);
            let rest = s.skip(line.len() as int + 2);
            let size = chunk_size(line)->0;
            if size == 0 {
                assert(before.output + Seq::<u8>::empty() == before.output);
            } else {
                assert(before.total + size <= usize::MAX);
                if rest.len() >= size + 2 && rest[size as int] == 0x0d && rest[size + 1] == 0x0a {
                    let more = chunks_from(
                        rest.skip(size + 2),
                        before.total + size,
                        before.max_body_bytes,
                    );
                    match more.0 {
                        Ok(b) => {
                            assert(before.output + (rest.take(size as int) + b) == before.output
                                + rest.take(size as int) + b);
                        },
                        Err(_) => {},
                    }
                }
            }
        },
        ChunkPhase::Trailers { consumed, count } => {
            lemma_line_from(s, 0, trailer_limit(consumed as int));
        },
        _ => {},
    }
}

proof fn lemma_decode_bytes(before: ChunkState, after: ChunkState, s: Seq<u8>, count: int)
    requires
        0 <= count <= s.len(),
        before.after_bytes(s.take(count)) == Ok::<ChunkState, Http1Error>(after),
    ensures
        after.decode(s.skip(count)).0 == before.decode(s).0,
        after.decode(s.skip(count)).1 + count == before.decode(s).1,
{
    match before.phase {
        ChunkPhase::Data(n) => {
            let rest = s.skip(n as int);
            if s.len() >= n + 2 {
                assert(rest[0] == s[n as int] && rest[1] == s[n + 1]);
                assert(rest.skip(2) == s.skip(n + 2));
            }
        },
        ChunkPhase::DataEnd => {
            let t = s.take(count);
            assert(t == seq![0x0du8, 0x0au8]);
            assert(t.len() == 2 && t[0] == 0x0d && t[1] == 0x0a);
            assert(s[0] == t[0] && s[1] == t[1]);
        },
        _ => {},
    }
}

/// What a stream gives as a body, and how many bytes it takes.
pub open spec fn streamed_body(stream: Seq<u8>, framing: BodyFraming, max_body_bytes: u64) -> (
    Result<Seq<u8>, Http1Error>,
    int,
) {
    match framing {
        BodyFraming::NoBody => (Ok(Seq::empty()), 0),
        BodyFraming::ContentLength(length) => fixed_body(stream, length, max_body_bytes),
        BodyFraming::Chunked => chunked_body(stream, max_body_bytes as int),
    }
}

/// Reads the body that the framing announces.
pub fn read_request_body(input: &mut Input, framing: BodyFraming, max_body_bytes: u64) -> (r:
    Result<Vec<u8>, Http1Error>)
    ensures
        ({
            let (body, taken) = streamed_body(old(input).remaining(), framing, max_body_bytes);
            same_bytes_result(r, body) && final(input).remaining() == old(input).remaining().skip(
                taken,
            )
        }),
{
    match framing {
        BodyFraming::NoBody => {
            assert(input.remaining().skip(0) == input.remaining());
            let body: Vec<u8> = Vec::new();
            assert(body@ == Seq::<u8>::empty());
            Ok(body)
        },
        BodyFraming::ContentLength(length) => read_fixed_body(input, length, max_body_bytes),
        BodyFraming::Chunked => read_chunked_body(input, max_body_bytes),
    }
}

// ---------------------------------------------------------------------
// What the decoder gives back
// ---------------------------------------------------------------------

/// A chunk to be sent: its data, and its size as it is written.
#[verifier::ext_equal]
pub struct Chunk {
    pub size: Seq<u8>,
    pub data: Seq<u8>,
}

/// Whether a chunk has data, and its size is written in hexadecimal digits of either
/// case.
pub open spec fn is_chunk(c: Chunk) -> bool {
    c.data.len() > 0 && text::lower(text::ascii_chars(c.size)) == text::digits(c.data.len(), 16)
}

pub open spec fn are_chunks(chunks: Seq<Chunk>) -> bool {
    forall|i: int| 0 <= i < chunks.len() ==> is_chunk(#[trigger] chunks[i])
}

/// One chunk on the wire.
pub open spec fn encoded_chunk(c: Chunk) -> Seq<u8> {
    c.size + seq![0x0du8, 0x0au8] + c.data + seq![0x0du8, 0x0au8]
}

/// Chunks on the wire, ended by an empty chunk without trailers.
pub open spec fn encoded_chunks(chunks: Seq<Chunk>) -> Seq<u8>
    decreases chunks.len(),
{
    if chunks.len() == 0 {
        seq![0x30u8, 0x0du8, 0x0au8, 0x0du8, 0x0au8]
    } else {
        encoded_chunk(chunks[0]) + encoded_chunks(chunks.drop_first())
    }
}

/// The data of the chunks.
pub open spec fn joined(chunks: Seq<Chunk>) -> Seq<u8>
    decreases chunks.len(),
{
    if chunks.len() == 0 {
        Seq::empty()
    } else {
        chunks[0].data + joined(chunks.drop_first())
    }
}

proof fn lemma_line_ends(s: Seq<u8>, line: Seq<u8>, i: int, limit: int)
    requires
        0 <= i <= line.len() + 1,
        line.len() + 2 <= limit,
        line.len() + 2 <= s.len(),
        s.take(line.len() as int) == line,
        s[line.len() as int] == 0x0d,
        s[line.len() as int + 1] == 0x0a,
        forall|j: int| 0 <= j < line.len() ==> #[trigger] line[j] != 0x0a,
    ensures
        line_from(s, i, limit) == (Ok::<Seq<u8>, Http1Error>(line), line.len() as int + 2),
    decreases line.len() + 1 - i,
{
    if i < line.len() + 1 {
        if i < line.len() {
            assert(s[i] == s.take(line.len() as int)[i]);
            assert(line[i] != 0x0a);
        }
        lemma_line_ends(s, line, i + 1, limit);
    }
}

proof fn lemma_split_without<A>(s: Seq<A>, sep: A)
    requires
        forall|i: int| 0 <= i < s.len() ==> #[trigger] s[i] != sep,
    ensures
        text::split(s, sep) == seq![s],
    decreases s.len(),
{
    if s.len() > 0 {
        let t = s.drop_last();
        assert forall|i: int| 0 <= i < t.len() implies #[trigger] t[i] != sep by {
            assert(t[i] == s[i]);
        }
        lemma_split_without(t, sep);
        let before = text::split(t, sep);
        assert(before.drop_last() == Seq::<Seq<A>>::empty());
        assert(before.last().push(s.last()) == s);
        assert(text::split(s, sep) == seq![s]);
    } else {
        assert(s == Seq::<A>::empty());
    }
}

proof fn lemma_digits_length(n: nat, bound: nat, len: nat)
    requires
        len >= 1,
        n < bound,
        bound == crate::addr::power(16, len),
    ensures
        text::digits(n, 16).len() <= len,
    decreases len,
{
    if n >= 16 {
        if len == 1 {
            reveal_with_fuel(crate::addr::power, 2);
        } else {
            let b = crate::addr::power(16, (len - 1) as nat);
            assert(n / 16 < b);
            lemma_digits_length(n / 16, b, (len - 1) as nat);
        }
    }
}

/// The case of a hexadecimal digit does not matter.
proof fn lemma_hex_case(c: char)
    requires
        text::is_hex_digit(text::lower_char(c)),
    ensures
        text::is_hex_digit(c),
        text::digit_value(text::lower_char(c)) == text::digit_value(c),
{
}

proof fn lemma_number_case(s: Seq<char>)
    requires
        text::all_hex_digits(text::lower(s)),
    ensures
        text::all_hex_digits(s),
        text::number(s, 16) == text::number(text::lower(s), 16),
    decreases s.len(),
{
    let low = text::lower(s);
    assert forall|i: int| 0 <= i < s.len() implies text::is_hex_digit(#[trigger] s[i]) by {
        assert(text::is_hex_digit(low[i]));
        lemma_hex_case(s[i]);
    }
    if s.len() > 0 {
        let t = s.drop_last();
        assert(text::lower(t) =~= low.drop_last());
        assert forall|i: int| 0 <= i < t.len() implies text::is_hex_digit(
            #[trigger] text::lower(t)[i],
        ) by {
            assert(text::lower(t)[i] == low[i]);
        }
        lemma_number_case(t);
        assert(text::is_hex_digit(low[s.len() - 1]));
        lemma_hex_case(s.last());
    }
}

proof fn lemma_size_line(line: Seq<u8>, n: nat)
    requires
        n <= u64::MAX,
        text::lower(text::ascii_chars(line)) == text::digits(n, 16),
    ensures
        chunk_size(line) == Some(n as u64),
        line.len() <= 16,
        forall|j: int| 0 <= j < line.len() ==> #[trigger] line[j] != 0x0a,
{
    let s = text::ascii_chars(line);
    let d = text::digits(n, 16);
    text::digits_denote_their_number(n, 16);
    reveal_with_fuel(crate::addr::power, 17);
    lemma_digits_length(n, 0x1_0000_0000_0000_0000, 16);
    lemma_number_case(s);
    assert forall|j: int| 0 <= j < line.len() implies #[trigger] line[j] != 0x0a && line[j]
        != 0x3b by {
        assert(text::is_hex_digit(s[j]));
        assert(s[j] == line[j] as char);
    }
    lemma_split_without(line, 0x3bu8);
    assert(text::split(line, 0x3bu8)[0] == line);
    assert(s.len() == d.len());
}

/// The most that a chunked body may hold.
pub open spec fn chunked_limit(max_body_bytes: int) -> int {
    if max_body_bytes <= usize::MAX {
        max_body_bytes
    } else {
        usize::MAX as int
    }
}

/// What was sent in chunks is given back where it is within the limit, whatever
/// follows it, and then exactly the bytes of the encoding are taken. Otherwise it is
/// refused as too large. It does not matter where the body was cut, nor in which case
/// the sizes are written.
pub proof fn chunked_bodies_round_trip(
    chunks: Seq<Chunk>,
    rest: Seq<u8>,
    total: int,
    max_body_bytes: int,
)
    requires
        are_chunks(chunks),
        0 <= total <= chunked_limit(max_body_bytes),
        joined(chunks).len() <= u64::MAX,
    ensures
        ({
            let (body, taken) = chunks_from(
                encoded_chunks(chunks) + rest,
                total,
                max_body_bytes,
            );
            if total + joined(chunks).len() <= chunked_limit(max_body_bytes) {
                body == Ok::<Seq<u8>, Http1Error>(joined(chunks)) && taken == encoded_chunks(
                    chunks,
                ).len()
            } else {
                body == Err::<Seq<u8>, _>(Http1Error::BodyTooLarge)
            }
        }),
    decreases chunks.len(),
{
    let e = encoded_chunks(chunks);
    let s = e + rest;
    if chunks.len() == 0 {
        let line = seq![0x30u8];
        assert(s.take(1) == line);
        lemma_line_ends(s, line, 0, MAX_CHUNK_LINE_BYTES as int);
        assert(text::lower(text::ascii_chars(line)) =~= text::digits(0, 16));
        lemma_size_line(line, 0);
        let after = s.skip(3);
        assert(after.take(0) == Seq::<u8>::empty());
        assert(after[0] == 0x0d && after[1] == 0x0a);
        lemma_line_ends(after, Seq::empty(), 0, trailer_limit(0));
        assert(chunk_size(line) == Some(0u64));
    } else {
        assert(is_chunk(chunks[0]));
        let data = chunks[0].data;
        let others = chunks.drop_first();
        let line = chunks[0].size;
        let n = line.len() as int;
        assert(joined(chunks).len() == data.len() + joined(others).len());
        lemma_size_line(line, data.len());
        let next = encoded_chunks(others) + rest;
        let crlf = seq![0x0du8, 0x0au8];
        assert(s =~= line + crlf + data + crlf + next);
        assert(s.take(n) =~= line);
        assert(s[n] == 0x0d && s[n + 1] == 0x0a);
        lemma_line_ends(s, line, 0, MAX_CHUNK_LINE_BYTES as int);
        if total + data.len() <= chunked_limit(max_body_bytes) {
            let after = s.skip(n + 2);
            assert(after =~= data + crlf + next);
            assert(after.take(data.len() as int) =~= data);
            assert(after[data.len() as int] == 0x0d && after[data.len() as int + 1] == 0x0a);
            assert(after.skip(data.len() as int + 2) =~= next);
            assert forall|i: int| 0 <= i < others.len() implies is_chunk(#[trigger] others[i]) by {
                assert(others[i] == chunks[i + 1]);
            }
            chunked_bodies_round_trip(others, rest, total + data.len(), max_body_bytes);
        }
    }
}

/// Two encodings of one body are decoded alike: both give it and are taken whole, or
/// both are refused as too large.
pub proof fn chunked_bodies_do_not_depend_on_cuts(
    chunks: Seq<Chunk>,
    other: Seq<Chunk>,
    max_body_bytes: u64,
)
    requires
        are_chunks(chunks),
        are_chunks(other),
        joined(chunks) == joined(other),
        joined(chunks).len() <= u64::MAX,
    ensures
        ({
            let first = chunked_body(encoded_chunks(chunks), max_body_bytes as int);
            let second = chunked_body(encoded_chunks(other), max_body_bytes as int);
            &&& first.0 == second.0
            &&& first.0 is Ok ==> {
                &&& first == (
                    Ok::<Seq<u8>, Http1Error>(joined(chunks)),
                    encoded_chunks(chunks).len() as int,
                )
                &&& second.1 == encoded_chunks(other).len()
            }
            &&& first.0 is Ok <==> joined(chunks).len() <= chunked_limit(max_body_bytes as int)
            &&& first.0 is Err ==> first.0 == Err::<Seq<u8>, _>(Http1Error::BodyTooLarge)
        }),
{
    let none = Seq::<u8>::empty();
    chunked_bodies_round_trip(chunks, none, 0, max_body_bytes as int);
    chunked_bodies_round_trip(other, none, 0, max_body_bytes as int);
    assert(encoded_chunks(chunks) + none =~= encoded_chunks(chunks));
    assert(encoded_chunks(other) + none =~= encoded_chunks(other));
}

/// How the body of a request is framed: by its one length where that is a number of 64
/// bits, in chunks where that is its one coding and it has no length, and not at all where
/// it has neither. Whatever could be read in two ways is refused, and so is any other
/// coding.
pub proof fn bodies_are_framed_one_way(headers: Seq<http1::HeaderView>)
    ensures
        ({
            let lengths = headers.filter(
                |h: http1::HeaderView| text::lower(h.name) == "content-length"@,
            );
            let codings = headers.filter(
                |h: http1::HeaderView| text::lower(h.name) == "transfer-encoding"@,
            );
            let r = framing_of(headers);
            &&& r == Ok::<BodyFraming, Http1Error>(BodyFraming::NoBody) <==> lengths.len() == 0
                && codings.len() == 0
            &&& r == Ok::<BodyFraming, Http1Error>(BodyFraming::Chunked) <==> lengths.len() == 0
                && codings.len() == 1 && text::lower(codings[0].value) == "chunked"@
            &&& r is Ok && r->Ok_0 is ContentLength <==> {
                &&& codings.len() == 0 && lengths.len() == 1
                &&& lengths[0].value.len() > 0 && text::all_digits(lengths[0].value)
                &&& text::number(lengths[0].value, 10) <= 0xffff_ffff_ffff_ffff
            }
            &&& r matches Ok(BodyFraming::ContentLength(n)) ==> n == text::number(
                lengths[0].value,
                10,
            )
            &&& lengths.len() > 1 ==> r == Err::<BodyFraming, Http1Error>(
                Http1Error::InvalidContentLength,
            )
            &&& lengths.len() == 1 && content_length_of(lengths[0].value) is Some && codings.len()
                > 0 ==> r == Err::<BodyFraming, Http1Error>(Http1Error::AmbiguousFraming)
            &&& lengths.len() == 0 && codings.len() > 0 && r is Err ==> r == Err::<
                BodyFraming,
                Http1Error,
            >(Http1Error::UnsupportedTransferEncoding)
        }),
{
    let lengths = headers.filter(|h: http1::HeaderView| text::lower(h.name) == "content-length"@);
    let codings = headers.filter(
        |h: http1::HeaderView| text::lower(h.name) == "transfer-encoding"@,
    );
    reveal_strlit("content-length");
    reveal_strlit("transfer-encoding");
    reveal_strlit("chunked");
    assert(text::lower("content-length"@) =~= "content-length"@);
    assert(text::lower("transfer-encoding"@) =~= "transfer-encoding"@);
    assert(text::lower("chunked"@) =~= "chunked"@);
    http1::values_are_found_by_name(headers, "content-length"@);
    http1::values_are_found_by_name(headers, "transfer-encoding"@);
    assert((|h: http1::HeaderView| text::lower(h.name) == text::lower("content-length"@)) =~= (
    |h: http1::HeaderView| text::lower(h.name) == "content-length"@));
    assert((|h: http1::HeaderView| text::lower(h.name) == text::lower("transfer-encoding"@)) =~= (
    |h: http1::HeaderView| text::lower(h.name) == "transfer-encoding"@));
    let a = http1::values_of(headers, "content-length"@);
    let b = http1::values_of(headers, "transfer-encoding"@);
    assert(a.len() == lengths.len() && b.len() == codings.len());
    if lengths.len() > 0 {
        assert(a[0] == lengths[0].value);
        text::lemma_number_monotone(lengths[0].value, 10, 0);
    }
    if codings.len() > 0 {
        assert(b[0] == codings[0].value);
    }
}

/// A body of a given length is the bytes of that length, whatever follows them; it is too
/// large over the limit, and cut short where the stream ends before.
pub proof fn sized_bodies_are_read_whole(body: Seq<u8>, rest: Seq<u8>, length: u64, limit: u64)
    ensures
        body.len() == length && length <= limit && length <= usize::MAX ==> fixed_body(
            body + rest,
            length,
            limit,
        ) == (Ok::<Seq<u8>, Http1Error>(body), length as int),
        body.len() < length && length <= limit && length <= usize::MAX ==> fixed_body(
            body,
            length,
            limit,
        ) == (Err::<Seq<u8>, Http1Error>(Http1Error::UnexpectedBodyEof), body.len() as int),
        length > limit ==> fixed_body(body, length, limit) == (
            Err::<Seq<u8>, Http1Error>(Http1Error::BodyTooLarge),
            0int,
        ),
{
    if body.len() == length {
        assert((body + rest).take(length as int) =~= body);
    }
}

/// The fields that are no business of an origin, and those that no trailer may carry.
pub proof fn trailers_carry_no_framing(name: Seq<char>)
    ensures
        is_trailer_name(name) <==> {
            let low = text::lower(name);
            &&& low != "content-length"@ && low != "host"@ && low != "connection"@
            &&& low != "keep-alive"@ && low != "te"@ && low != "trailer"@
            &&& low != "transfer-encoding"@ && low != "upgrade"@
            &&& !"proxy-"@.is_prefix_of(low) && !"x-hns-"@.is_prefix_of(low)
        },
{
    let names = hop_by_hop_names();
    let low = text::lower(name);
    assert(names.len() == 9);
    assert(names[0] == "connection"@ && names[1] == "keep-alive"@ && names[2]
        == "proxy-authenticate"@ && names[3] == "proxy-authorization"@ && names[4]
        == "proxy-connection"@ && names[5] == "te"@ && names[6] == "trailer"@ && names[7]
        == "transfer-encoding"@ && names[8] == "upgrade"@);
    reveal_strlit("proxy-");
    reveal_strlit("proxy-authenticate");
    reveal_strlit("proxy-authorization");
    reveal_strlit("proxy-connection");
    assert("proxy-"@.is_prefix_of("proxy-authenticate"@));
    assert("proxy-"@.is_prefix_of("proxy-authorization"@));
    assert("proxy-"@.is_prefix_of("proxy-connection"@));
}

/// The size of a chunk is read from its hexadecimal digits in any case, before extensions
/// that are tokens, alone or with a value.
pub proof fn chunk_sizes_are_hexadecimal(size: Seq<u8>, extension: Seq<u8>)
    requires
        forall|i: int| 0 <= i < size.len() ==> #[trigger] size[i] != 0x3b,
        forall|i: int| 0 <= i < extension.len() ==> #[trigger] extension[i] != 0x3b,
    ensures
        ({
            let digits = text::ascii_chars(size);
            let fits = digits.len() > 0 && text::all_hex_digits(digits) && text::number(digits, 16)
                <= 0xffff_ffff_ffff_ffff;
            &&& chunk_size(size) == if fits {
                Some(text::number(digits, 16) as u64)
            } else {
                None
            }
            &&& chunk_size(size.push(0x3b) + extension) == if fits && is_chunk_extension(
                extension,
            ) {
                Some(text::number(digits, 16) as u64)
            } else {
                None
            }
        }),
{
    lemma_split_without(size, 0x3bu8);
    lemma_split_without(extension, 0x3bu8);
    text::split_distributes(size, extension, 0x3bu8);
    let p = text::split(size, 0x3bu8);
    let q = text::split(size.push(0x3b) + extension, 0x3bu8);
    assert(p.len() == 1 && p[0] == size);
    assert(q.len() == 2 && q[0] == size && q[1] == extension);
}

/// A chunk extension is a token, alone or with a value that is a token or a quoted string.
pub proof fn extensions_are_tokens(name: Seq<u8>, value: Seq<u8>)
    requires
        forall|i: int| 0 <= i < name.len() ==> #[trigger] name[i] != 0x3d,
    ensures
        is_chunk_extension(name) <==> http1::is_token(name),
        is_chunk_extension(name.push(0x3d) + value) <==> http1::is_token(name) && (http1::is_token(
            value,
        ) || is_quoted_string(value)),
{
    text::lemma_find(name, 0x3du8, name.len() as int);
    assert(name.take(name.len() as int) =~= name);
    let e = name.push(0x3d) + value;
    assert forall|j: int| 0 <= j < name.len() implies e[j] != 0x3d by {
        assert(e[j] == name[j]);
    }
    text::lemma_find(e, 0x3du8, name.len() as int);
    assert(e.take(name.len() as int) =~= name);
    assert(e.skip(name.len() as int + 1) =~= value);
}

/// A line is what stands before its carriage return and line feed, within the limit; a line
/// feed alone is refused, as is a line that does not end in time.
pub proof fn lines_are_read_to_their_end(line: Seq<u8>, rest: Seq<u8>, limit: int)
    requires
        !line.contains(0x0au8),
        limit >= 0,
    ensures
        ({
            let ended = crlf_line(line + seq![0x0du8, 0x0au8] + rest, limit);
            let bare = crlf_line(line.push(0x0au8) + rest, limit);
            let open = crlf_line(line, limit);
            &&& line.len() + 2 <= limit ==> ended == (
                Ok::<Seq<u8>, Http1Error>(line),
                line.len() as int + 2,
            )
            &&& line.len() + 2 > limit ==> ended.0 == Err::<Seq<u8>, Http1Error>(
                Http1Error::InvalidChunkedBody,
            )
            &&& line.len() == 0 || line.last() != 0x0d ==> bare.0 == Err::<Seq<u8>, Http1Error>(
                Http1Error::InvalidChunkedBody,
            )
            &&& open.0 == Err::<Seq<u8>, Http1Error>(
                if line.len() >= limit {
                    Http1Error::InvalidChunkedBody
                } else {
                    Http1Error::UnexpectedBodyEof
                },
            )
        }),
{
    let s = line + seq![0x0du8, 0x0au8] + rest;
    let n = line.len() as int;
    assert forall|j: int| 0 <= j < n + 1 implies s[j] != 0x0a by {
        if j < n {
            assert(s[j] == line[j]);
            assert(line.contains(line[j]));
        }
    }
    lemma_first_feed(s, 0, n + 1, limit);
    assert(s[n] == 0x0d && s[n + 1] == 0x0a);
    assert(s.take(n) =~= line);
    let t = line.push(0x0au8) + rest;
    assert forall|j: int| 0 <= j < n implies t[j] != 0x0a by {
        assert(t[j] == line[j]);
        assert(line.contains(line[j]));
    }
    assert(t[n] == 0x0a);
    if n > 0 {
        assert(t[n - 1] == line[n - 1]);
    }
    lemma_first_feed(t, 0, n, limit);
    assert forall|j: int| 0 <= j < n implies line[j] != 0x0a by {
        assert(line.contains(line[j]));
    }
    lemma_no_feed(line, 0, limit);
}

proof fn lemma_first_feed(s: Seq<u8>, i: int, k: int, limit: int)
    requires
        0 <= i <= k < s.len(),
        s[k] == 0x0a,
        forall|j: int| 0 <= j < k ==> s[j] != 0x0a,
    ensures
        k < limit ==> line_from(s, i, limit) == (if k > 0 && s[k - 1] == 0x0d {
            (Ok(s.take(k - 1)), k + 1)
        } else {
            (Err(Http1Error::InvalidChunkedBody), k + 1)
        }),
        k >= limit ==> line_from(s, i, limit).0 == Err::<Seq<u8>, Http1Error>(
            Http1Error::InvalidChunkedBody,
        ),
    decreases k - i,
{
    if i < k && i < limit {
        lemma_first_feed(s, i + 1, k, limit);
    }
}

proof fn lemma_no_feed(s: Seq<u8>, i: int, limit: int)
    requires
        0 <= i <= s.len(),
        forall|j: int| 0 <= j < s.len() ==> s[j] != 0x0a,
    ensures
        line_from(s, i, limit).0 == Err::<Seq<u8>, Http1Error>(
            if i >= limit || s.len() >= limit {
                Http1Error::InvalidChunkedBody
            } else {
                Http1Error::UnexpectedBodyEof
            },
        ),
    decreases s.len() - i,
{
    if i < limit && i < s.len() {
        lemma_no_feed(s, i + 1, limit);
    }
}

/// A chunk is its line, of at most eight thousand one hundred and ninety-two bytes, its data
/// and a line end; its data comes before that of the rest. A chunk over the limit, one
/// that is cut short, and one that does not end where it should are told apart.
pub proof fn chunks_are_read_in_turn(
    line: Seq<u8>,
    data: Seq<u8>,
    end: Seq<u8>,
    rest: Seq<u8>,
    total: int,
    limit: int,
)
    requires
        !line.contains(0x0au8),
        line.len() + 2 <= 8192,
        end.len() == 2,
        0 <= total,
    ensures
        ({
            let head = line + seq![0x0du8, 0x0au8];
            let whole = chunks_from(head + (data + end + rest), total, limit);
            let next = chunks_from(rest, total + data.len(), limit);
            let size = chunk_size(line);
            let fits = total + data.len() <= limit && total + data.len() <= usize::MAX;
            &&& size is None ==> whole.0 == Err::<Seq<u8>, Http1Error>(
                Http1Error::InvalidChunkedBody,
            )
            &&& size == Some(data.len() as u64) && 0 < data.len() <= u64::MAX ==> {
                &&& !fits ==> whole.0 == Err::<Seq<u8>, Http1Error>(Http1Error::BodyTooLarge)
                &&& fits && end != seq![0x0du8, 0x0au8] ==> whole.0 == Err::<Seq<u8>, Http1Error>(
                    Http1Error::InvalidChunkedBody,
                )
                &&& fits && end == seq![0x0du8, 0x0au8] ==> (match next.0 {
                    Ok(b) => whole == (
                        Ok::<Seq<u8>, Http1Error>(data + b),
                        head.len() as int + data.len() + 2 + next.1,
                    ),
                    Err(e) => whole.0 == Err::<Seq<u8>, Http1Error>(e),
                })
                &&& fits ==> chunks_from(head + data, total, limit).0 == Err::<
                    Seq<u8>,
                    Http1Error,
                >(Http1Error::UnexpectedBodyEof)
            }
        }),
{
    let head = line + seq![0x0du8, 0x0au8];
    let tail = data + end + rest;
    let s = head + tail;
    lines_are_read_to_their_end(line, tail, 8192);
    assert(s.skip(head.len() as int) =~= tail);
    let n = data.len() as int;
    assert(tail[n] == end[0] && tail[n + 1] == end[1]);
    assert(tail.take(n) =~= data);
    assert(tail.skip(n + 2) =~= rest);
    if end[0] == 0x0d && end[1] == 0x0a {
        assert(end =~= seq![0x0du8, 0x0au8]);
    }
    lines_are_read_to_their_end(line, data, 8192);
    assert((head + data).skip(head.len() as int) =~= data);
}

/// A chunk of size zero ends the body, once its trailers have been read.
pub proof fn the_last_chunk_ends_the_body(line: Seq<u8>, rest: Seq<u8>, total: int, limit: int)
    requires
        !line.contains(0x0au8),
        line.len() + 2 <= 8192,
        chunk_size(line) == Some(0u64),
    ensures
        ({
            let r = chunks_from(line + seq![0x0du8, 0x0au8] + rest, total, limit);
            let (end, taken) = trailers_from(rest, 0, 0);
            &&& r.1 == line.len() + 2 + taken
            &&& r.0 == (match end {
                Ok(()) => Ok(Seq::<u8>::empty()),
                Err(e) => Err(e),
            })
        }),
{
    let head = line + seq![0x0du8, 0x0au8];
    lines_are_read_to_their_end(line, rest, 8192);
    assert((head + rest).skip(head.len() as int) =~= rest);
}

/// Trailers are up to two hundred and fifty-six lines, in sixty-five thousand five hundred
/// and thirty-six bytes, that are fields which say nothing of the message itself; an empty
/// line ends them.
pub proof fn trailers_are_read_in_turn(line: Seq<u8>, rest: Seq<u8>, consumed: int, count: int)
    requires
        !line.contains(0x0au8),
        0 <= consumed,
        0 <= count,
        line.len() + 2 <= 8192,
        consumed + line.len() + 2 <= 65536,
    ensures
        ({
            let r = trailers_from(line + seq![0x0du8, 0x0au8] + rest, consumed, count);
            let next = trailers_from(rest, consumed + line.len() + 2, count + 1);
            let field = http1::header_line(line);
            let good = count < 256 && field is Some && is_trailer_name(field->Some_0.name);
            &&& line.len() == 0 ==> r == (Ok::<(), Http1Error>(()), 2int)
            &&& line.len() > 0 && good ==> r == (next.0, line.len() as int + 2 + next.1)
            &&& line.len() > 0 && !good ==> r.0 == Err::<(), Http1Error>(
                Http1Error::InvalidChunkedBody,
            )
        }),
{
    let head = line + seq![0x0du8, 0x0au8];
    lines_are_read_to_their_end(line, rest, trailer_limit(consumed));
    assert((head + rest).skip(head.len() as int) =~= rest);
}

/// Where there is no room for a line, the trailers are too large.
pub proof fn trailers_have_their_room(s: Seq<u8>, consumed: int, count: int)
    requires
        consumed > 65534,
    ensures
        trailers_from(s, consumed, count).0 == Err::<(), Http1Error>(Http1Error::TrailersTooLarge),
{
}

/// A decoder asks for a chunk line, then for as many bytes as it says, then for a line end,
/// and so on; after the line of size zero for trailers, and after the empty line for
/// nothing.
pub proof fn decoders_ask_in_order(s: ChunkState, line: Seq<u8>, bytes: Seq<u8>, n: usize)
    ensures
        ({
            let at = |phase: ChunkPhase| ChunkState { phase, ..s };
            let refused = Err::<ChunkState, Http1Error>(Http1Error::InvalidChunkedBody);
            let fits = |size: u64| s.total + size <= s.max_body_bytes && s.total + size
                <= usize::MAX;
            let end = seq![0x0du8, 0x0au8];
            &&& at(ChunkPhase::Size).need() == Ok::<ChunkNeed, Http1Error>(ChunkNeed::Line(8192))
            &&& at(ChunkPhase::Data(n)).need() == Ok::<ChunkNeed, Http1Error>(ChunkNeed::Bytes(n))
            &&& at(ChunkPhase::DataEnd).need() == Ok::<ChunkNeed, Http1Error>(ChunkNeed::Bytes(2))
            &&& at(ChunkPhase::Done).need() == Ok::<ChunkNeed, Http1Error>(ChunkNeed::Nothing)
            &&& at(ChunkPhase::Size).after_line(line) == (match chunk_size(line) {
                None => refused,
                Some(0) => Ok(at(ChunkPhase::Trailers { consumed: 0, count: 0 })),
                Some(size) => if fits(size) {
                    Ok(
                        ChunkState {
                            phase: ChunkPhase::Data(size as usize),
                            total: s.total + size,
                            ..s
                        },
                    )
                } else {
                    Err(Http1Error::BodyTooLarge)
                },
            })
            &&& at(ChunkPhase::Data(n)).after_bytes(bytes) == if bytes.len() == n {
                Ok(
                    ChunkState {
                        output: s.output + bytes,
                        phase: ChunkPhase::DataEnd,
                        ..s
                    },
                )
            } else {
                refused
            }
            &&& at(ChunkPhase::DataEnd).after_bytes(bytes) == if bytes == end {
                Ok(at(ChunkPhase::Size))
            } else {
                refused
            }
        }),
{
}

/// Trailer lines are asked for up to what is left of their room, and taken as they are when
/// they are read at once.
pub proof fn decoders_take_trailers(s: ChunkState, line: Seq<u8>, consumed: usize, count: usize)
    requires
        consumed <= 65536,
        count <= 256,
    ensures
        ({
            let at = |phase: ChunkPhase| ChunkState { phase, ..s };
            let here = at(ChunkPhase::Trailers { consumed, count });
            let field = http1::header_line(line);
            let good = count < 256 && field is Some && is_trailer_name(field->Some_0.name)
                && consumed + line.len() + 2 <= 65536;
            &&& here.need() == (if consumed > 65534 {
                Err(Http1Error::TrailersTooLarge)
            } else if 65536 - consumed < 8192 {
                Ok(ChunkNeed::Line((65536 - consumed) as usize))
            } else {
                Ok(ChunkNeed::Line(8192))
            })
            &&& here.after_line(line) == if line.len() == 0 {
                Ok(at(ChunkPhase::Done))
            } else if good {
                Ok(
                    at(
                        ChunkPhase::Trailers {
                            consumed: (consumed + line.len() + 2) as usize,
                            count: (count + 1) as usize,
                        },
                    ),
                )
            } else {
                Err(Http1Error::InvalidChunkedBody)
            }
        }),
{
}

/// A quoted string is text between quotes, in which a backslash takes the next byte as it
/// is.
pub proof fn quoted_strings_are_escaped(text: Seq<u8>, b: u8)
    ensures
        is_quoted_string(seq![0x22u8] + text + seq![0x22u8]) <==> quoted_text(text) == Some(false),
        quoted_text(Seq::empty()) == Some(false),
        quoted_text(text.push(b)) == (match quoted_text(text) {
            None => None,
            Some(true) => if b == 0x09 || 0x20 <= b <= 0x7e {
                Some(false)
            } else {
                None
            },
            Some(false) => if b == 0x5c {
                Some(true)
            } else if b == 0x09 || (0x20 <= b <= 0x7e && b != 0x22) {
                Some(false)
            } else {
                None
            },
        }),
{
    assert(text.push(b).drop_last() =~= text);
    let v = seq![0x22u8] + text + seq![0x22u8];
    assert(v.subrange(1, v.len() - 1) =~= text);
    assert(v.last() == 0x22);
}

/// A body is read as its framing says, and where there is none nothing is read.
pub proof fn bodies_are_read_as_framed(stream: Seq<u8>, length: u64, limit: u64)
    ensures
        streamed_body(stream, BodyFraming::NoBody, limit) == (
            Ok::<Seq<u8>, Http1Error>(Seq::empty()),
            0int,
        ),
        streamed_body(stream, BodyFraming::ContentLength(length), limit) == fixed_body(
            stream,
            length,
            limit,
        ),
        streamed_body(stream, BodyFraming::Chunked, limit) == chunks_from(stream, 0, limit as int),
{
}

/// A reader of a line goes on until a line feed, which gives the line or is refused, or until
/// the limit is reached.
pub proof fn lines_are_read_byte_by_byte(received: Seq<u8>, limit: int)
    requires
        limit > 0,
    ensures
        ({
            let n = received.len() as int;
            let fed = n > 0 && received[n - 1] == 0x0a;
            let r = line_progress(received, limit);
            &&& r is None <==> !fed && n < limit
            &&& fed && n >= 2 && received[n - 2] == 0x0d ==> r == Some(
                Ok::<Seq<u8>, Http1Error>(received.subrange(0, n - 2)),
            )
            &&& fed && !(n >= 2 && received[n - 2] == 0x0d) || !fed && n >= limit ==> r == Some(
                Err::<Seq<u8>, Http1Error>(Http1Error::InvalidChunkedBody),
            )
        }),
{
    let n = received.len() as int;
    if n >= 2 {
        assert(received.take(n - 2) =~= received.subrange(0, n - 2));
    }
}

/// A body that is read is the one that is meant, and so is a fault.
pub proof fn read_bodies_agree(
    r: Result<Vec<u8>, Http1Error>,
    v: Result<Seq<u8>, Http1Error>,
)
    ensures
        same_bytes_result(r, v) <==> {
            &&& r is Ok <==> v is Ok
            &&& r is Ok ==> r->Ok_0@ == v->Ok_0
            &&& r is Err ==> r->Err_0 == v->Err_0
        },
{
}

/// A decoder that takes a step is in the state that is meant; one that refuses it stays as
/// it was.
pub proof fn decoder_states_agree(
    old_state: ChunkState,
    new_state: ChunkState,
    r: Result<(), Http1Error>,
    v: Result<ChunkState, Http1Error>,
)
    ensures
        same_state(old_state, new_state, r, v) <==> {
            &&& r is Ok <==> v is Ok
            &&& r is Ok ==> new_state == v->Ok_0
            &&& r is Err ==> r->Err_0 == v->Err_0 && new_state == old_state
        },
{
}

/// A length is taken where it is within the limit.
pub proof fn lengths_are_limited(length: u64, max_body_bytes: u64, r: Result<usize, Http1Error>)
    requires
        call_ensures(fixed_body_length, (length, max_body_bytes), r),
    ensures
        r is Ok <==> length <= max_body_bytes && length <= usize::MAX,
        r is Ok ==> r->Ok_0 == length,
        r is Err ==> r->Err_0 == Http1Error::BodyTooLarge,
{
}

/// Framings, sizes and lengths are read from the fields and lines that are given.
pub proof fn framings_are_determined(
    headers: &[Header],
    framing: Result<BodyFraming, Http1Error>,
    line: &[u8],
    size: Option<u64>,
    value: &str,
    length: Result<u64, Http1Error>,
)
    requires
        call_ensures(determine_body_framing, (headers,), framing),
        call_ensures(parse_chunk_size, (line,), size),
        call_ensures(parse_content_length, (value,), length),
    ensures
        framing == framing_of(http1::header_views(headers@)),
        size == chunk_size(line@),
        length is Ok <==> content_length_of(value@) is Some,
        length is Ok ==> Some(length->Ok_0) == content_length_of(value@),
        length is Err ==> length->Err_0 == Http1Error::InvalidContentLength,
{
}

} // verus!

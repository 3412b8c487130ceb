//! Response heads: what the browser receives, and what stays inside.

use crate::forward;
use crate::http1;
use crate::http1::HeaderView;
use crate::text;
use vstd::prelude::*;

verus! {

pub const MAX_RESPONSE_HEADERS: usize = 256;

pub const MAX_RESPONSE_HEAD_BYTES: usize = 65536;

#[derive(Clone, Copy, Debug, PartialEq, Eq, Structural)]
pub enum ResponseError {
    InvalidStatus,
    InvalidReason,
    InvalidHeader,
    HeadersTooLarge,
    BodyNotAllowed,
}

pub open spec fn response_error_text(e: ResponseError) -> Seq<char> {
    match e {
        ResponseError::InvalidStatus => "invalid HTTP response status"@,
        ResponseError::InvalidReason => "invalid HTTP response reason"@,
        ResponseError::InvalidHeader => "invalid HTTP response header"@,
        ResponseError::HeadersTooLarge => "HTTP response headers exceed proxy limits"@,
        ResponseError::BodyNotAllowed => "HTTP response status does not permit a message body"@,
    }
}

impl ResponseError {
    /// What went wrong, in words.
    pub fn message(&self) -> (r: &'static str)
        ensures
            r@ == response_error_text(*self),
    {
        match self {
            ResponseError::InvalidStatus => "invalid HTTP response status",
            ResponseError::InvalidReason => "invalid HTTP response reason",
            ResponseError::InvalidHeader => "invalid HTTP response header",
            ResponseError::HeadersTooLarge => "HTTP response headers exceed proxy limits",
            ResponseError::BodyNotAllowed => "HTTP response status does not permit a message body",
        }
    }
}

// ---------------------------------------------------------------------
// Fields
// ---------------------------------------------------------------------

pub open spec fn pair_view(p: (String, String)) -> HeaderView {
    HeaderView { name: p.0@, value: p.1@ }
}

pub open spec fn pair_views(headers: Seq<(String, String)>) -> Seq<HeaderView> {
    headers.map_values(|p: (String, String)| pair_view(p))
}

proof fn lemma_pair_views_push(headers: Seq<(String, String)>, p: (String, String))
    ensures
        pair_views(headers.push(p)) == pair_views(headers).push(pair_view(p)),
{
    assert(pair_views(headers.push(p)) =~= pair_views(headers).push(pair_view(p)));
}

/// A response field value has no ASCII control character but the tab.
pub open spec fn is_response_value(v: Seq<char>) -> bool {
    forall|i: int| 0 <= i < v.len() ==> !text::is_control(#[trigger] v[i]) || v[i] == '\t'
}

pub open spec fn byte_len(s: Seq<char>) -> nat {
    vstd::utf8::encode_utf8(s).len()
}

/// What the fields take on the wire, with separators and line ends.
pub open spec fn wire_size(headers: Seq<HeaderView>) -> nat
    decreases headers.len(),
{
    if headers.len() == 0 {
        0
    } else {
        wire_size(headers.drop_last()) + byte_len(headers.last().name) + byte_len(
            headers.last().value,
        ) + 4
    }
}

/// Whether every field is well formed, and the members of every `Connection`
/// field are tokens.
pub open spec fn is_valid_field(h: HeaderView) -> bool {
    &&& forward::is_token_text(h.name)
    &&& is_response_value(h.value)
    &&& text::eq_ignore_case(h.name, "connection"@) ==> forward::all_tokens(
        forward::members(h.value),
    )
}

pub open spec fn all_valid_fields(headers: Seq<HeaderView>) -> bool {
    forall|i: int| 0 <= i < headers.len() ==> is_valid_field(#[trigger] headers[i])
}

/// The lower-case names that `Connection` fields nominate.
pub open spec fn connection_names(headers: Seq<HeaderView>) -> Seq<Seq<char>>
    decreases headers.len(),
{
    if headers.len() == 0 {
        Seq::empty()
    } else {
        let before = connection_names(headers.drop_last());
        if text::eq_ignore_case(headers.last().name, "connection"@) {
            before + forward::lower_all(forward::members(headers.last().value))
        } else {
            before
        }
    }
}

/// The names that the connection fields nominate, where the fields are valid
/// and within the limits.
pub open spec fn validated(headers: Seq<HeaderView>) -> Result<Seq<Seq<char>>, ResponseError> {
    if headers.len() > MAX_RESPONSE_HEADERS {
        Err(ResponseError::HeadersTooLarge)
    } else if !all_valid_fields(headers) {
        Err(ResponseError::InvalidHeader)
    } else if wire_size(headers) > MAX_RESPONSE_HEAD_BYTES {
        Err(ResponseError::HeadersTooLarge)
    } else {
        Ok(connection_names(headers))
    }
}

fn check_response_value(v: &[char]) -> (r: bool)
    ensures
        r == is_response_value(v@),
{
    let mut i: usize = 0;
    while i < v.len()
        invariant
            i <= v@.len(),
            forall|j: int| 0 <= j < i ==> !text::is_control(#[trigger] v@[j]) || v@[j] == '\t',
        decreases v.len() - i,
    {
        if text::char_is_control(v[i]) && v[i] != '\t' {
            return false;
        }
        i += 1;
    }
    true
}

/// Adds to a size, stopping at a bound that is past every limit.
fn add_size(total: usize, more: usize) -> (r: usize)
    requires
        total <= MAX_RESPONSE_HEAD_BYTES + 1,
    ensures
        r <= MAX_RESPONSE_HEAD_BYTES + 1,
        total + more <= MAX_RESPONSE_HEAD_BYTES ==> r == total + more,
        total + more > MAX_RESPONSE_HEAD_BYTES ==> r == MAX_RESPONSE_HEAD_BYTES + 1,
{
    if more > MAX_RESPONSE_HEAD_BYTES || total + more > MAX_RESPONSE_HEAD_BYTES {
        MAX_RESPONSE_HEAD_BYTES + 1
    } else {
        total + more
    }
}

/// The size in bytes of a text, which fits in the address space.
fn text_size(s: &str) -> (r: usize)
    ensures
        r == byte_len(s@),
{
    let b = s.as_bytes();
    b.len()
}

pub fn validate_response_headers(headers: &[(String, String)]) -> (r: Result<
    Vec<Vec<char>>,
    ResponseError,
>)
    ensures
        match (r, validated(pair_views(headers@))) {
            (Ok(n), Ok(v)) => forward::char_views(n@) == v,
            (Err(e), Err(f)) => e == f,
            _ => false,
        },
{
    let ghost hs = pair_views(headers@);
    if headers.len() > MAX_RESPONSE_HEADERS {
        assert(hs.len() == headers@.len());
        return Err(ResponseError::HeadersTooLarge);
    }
    let mut size: usize = 0;
    let mut names: Vec<Vec<char>> = Vec::new();
    let mut i: usize = 0;
    assert(forward::char_views(names@) == Seq::<Seq<char>>::empty());
    assert(hs.take(0) == Seq::<HeaderView>::empty());
    while i < headers.len()
        invariant
            i <= headers@.len() == hs.len(),
            hs == pair_views(headers@),
            hs.len() <= MAX_RESPONSE_HEADERS,
            size <= MAX_RESPONSE_HEAD_BYTES + 1,
            wire_size(hs.take(i as int)) <= MAX_RESPONSE_HEAD_BYTES ==> size == wire_size(
                hs.take(i as int),
            ),
            wire_size(hs.take(i as int)) > MAX_RESPONSE_HEAD_BYTES ==> size
                == MAX_RESPONSE_HEAD_BYTES + 1,
            forall|j: int| 0 <= j < i ==> is_valid_field(#[trigger] hs[j]),
            forward::char_views(names@) == connection_names(hs.take(i as int)),
        decreases headers.len() - i,
    {
        let name = headers[i].0.as_str();
        let value = headers[i].1.as_str();
        proof {
            assert(hs[i as int] == pair_view(headers@[i as int]));
            assert(hs.take(i as int + 1).drop_last() == hs.take(i as int));
        }
        let name_chars = text::to_chars(name);
        let value_chars = text::to_chars(value);
        if !forward::is_token_chars(name_chars.as_slice()) || !check_response_value(
            value_chars.as_slice(),
        ) {
            assert(!is_valid_field(hs[i as int]));
            return Err(ResponseError::InvalidHeader);
        }
        size = add_size(size, text_size(name));
        size = add_size(size, text_size(value));
        size = add_size(size, 4);
        if text::same_ignore_case(name, "connection") {
            if !forward::add_members(&mut names, value) {
                assert(!is_valid_field(hs[i as int]));
                return Err(ResponseError::InvalidHeader);
            }
        }
        i += 1;
    }
    assert(hs.take(i as int) == hs);
    if size > MAX_RESPONSE_HEAD_BYTES {
        return Err(ResponseError::HeadersTooLarge);
    }
    Ok(names)
}

// ---------------------------------------------------------------------
// Which fields go where
// ---------------------------------------------------------------------

pub open spec fn is_internal_name(lower_name: Seq<char>) -> bool {
    "x-hns-"@.is_prefix_of(lower_name)
}

/// The internal fields that native security surfaces read.
pub open spec fn trusted_names() -> Seq<Seq<char>> {
    seq![
        "x-hns-doh-fallback"@,
        "x-hns-resolution-trace"@,
        "x-hns-resolver-mode"@,
        "x-hns-resolver-policy"@,
        "x-hns-security-path"@,
        "x-hns-tls-policy"@,
    ]
}

pub open spec fn is_trusted_name(lower_name: Seq<char>) -> bool {
    text::is_one_of(lower_name, trusted_names())
}

/// The fields that the proxy writes itself.
pub open spec fn managed_names() -> Seq<Seq<char>> {
    seq![
        "connection"@,
        "alt-svc"@,
        "content-length"@,
        "keep-alive"@,
        "te"@,
        "trailer"@,
        "transfer-encoding"@,
        "upgrade"@,
    ]
}

pub open spec fn is_managed_name(lower_name: Seq<char>) -> bool {
    "proxy-"@.is_prefix_of(lower_name) || text::is_one_of(lower_name, managed_names())
}

pub fn is_internal_header(lower_name: &str) -> (r: bool)
    ensures
        r == is_internal_name(lower_name@),
{
    text::text_starts_with(lower_name, "x-hns-")
}

pub fn is_trusted_metadata_header(lower_name: &str) -> (r: bool)
    ensures
        r == is_trusted_name(lower_name@),
{
    let ghost names = trusted_names();
    let r = text::same_text(lower_name, "x-hns-doh-fallback") || text::same_text(
        lower_name,
        "x-hns-resolution-trace",
    ) || text::same_text(lower_name, "x-hns-resolver-mode") || text::same_text(
        lower_name,
        "x-hns-resolver-policy",
    ) || text::same_text(lower_name, "x-hns-security-path") || text::same_text(
        lower_name,
        "x-hns-tls-policy",
    );
    proof {
        assert(names.len() == 6);
        assert(names[0] == "x-hns-doh-fallback"@ && names[1] == "x-hns-resolution-trace"@
            && names[2] == "x-hns-resolver-mode"@ && names[3] == "x-hns-resolver-policy"@
            && names[4] == "x-hns-security-path"@ && names[5] == "x-hns-tls-policy"@);
    }
    r
}

pub fn is_proxy_managed_response_header(lower_name: &str) -> (r: bool)
    ensures
        r == is_managed_name(lower_name@),
{
    let ghost names = managed_names();
    let r = text::text_starts_with(lower_name, "proxy-") || text::same_text(
        lower_name,
        "connection",
    ) || text::same_text(lower_name, "alt-svc") || text::same_text(lower_name, "content-length")
        || text::same_text(lower_name, "keep-alive") || text::same_text(lower_name, "te")
        || text::same_text(lower_name, "trailer") || text::same_text(
        lower_name,
        "transfer-encoding",
    ) || text::same_text(lower_name, "upgrade");
    proof {
        assert(names.len() == 8);
        assert(names[0] == "connection"@ && names[1] == "alt-svc"@ && names[2]
            == "content-length"@ && names[3] == "keep-alive"@ && names[4] == "te"@ && names[5]
            == "trailer"@ && names[6] == "transfer-encoding"@ && names[7] == "upgrade"@);
    }
    r
}

pub open spec fn is_delivered(h: HeaderView, names: Seq<Seq<char>>) -> bool {
    let low = text::lower(h.name);
    !names.contains(low) && !is_internal_name(low) && !is_managed_name(low)
}

pub open spec fn is_metadata(h: HeaderView, names: Seq<Seq<char>>) -> bool {
    let low = text::lower(h.name);
    !names.contains(low) && is_trusted_name(low)
}

/// The fields that the browser receives from the origin, in order.
pub open spec fn delivered(headers: Seq<HeaderView>, names: Seq<Seq<char>>) -> Seq<HeaderView>
    decreases headers.len(),
{
    if headers.len() == 0 {
        Seq::empty()
    } else {
        let before = delivered(headers.drop_last(), names);
        if is_delivered(headers.last(), names) {
            before.push(headers.last())
        } else {
            before
        }
    }
}

/// The trusted internal fields, in order.
pub open spec fn metadata_fields(headers: Seq<HeaderView>, names: Seq<Seq<char>>) -> Seq<HeaderView>
    decreases headers.len(),
{
    if headers.len() == 0 {
        Seq::empty()
    } else {
        let before = metadata_fields(headers.drop_last(), names);
        if is_metadata(headers.last(), names) {
            before.push(headers.last())
        } else {
            before
        }
    }
}

pub open spec fn distinct_names(fields: Seq<HeaderView>) -> bool {
    forall|i: int, j: int|
        0 <= i < j < fields.len() ==> !text::eq_ignore_case(
            (#[trigger] fields[i]).name,
            (#[trigger] fields[j]).name,
        )
}

#[verifier::ext_equal]
pub struct SanitizedView {
    pub forwarded: Seq<HeaderView>,
    pub metadata: Seq<HeaderView>,
}

/// What the browser receives and what stays inside; a trusted field may occur
/// once only.
pub open spec fn sanitized_response(headers: Seq<HeaderView>) -> Result<
    SanitizedView,
    ResponseError,
> {
    match validated(headers) {
        Err(e) => Err(e),
        Ok(names) => if !distinct_names(metadata_fields(headers, names)) {
            Err(ResponseError::InvalidHeader)
        } else {
            Ok(
                SanitizedView {
                    forwarded: delivered(headers, names),
                    metadata: metadata_fields(headers, names),
                },
            )
        },
    }
}

/// Trusted metadata that was removed from a response head.
#[derive(Clone, PartialEq, Eq)]
pub struct InternalResponseMetadata {
    headers: Vec<(String, String)>,
}

impl View for InternalResponseMetadata {
    type V = Seq<HeaderView>;

    closed spec fn view(&self) -> Seq<HeaderView> {
        pair_views(self.headers@)
    }
}

/// The value of the last field with the given name.
pub open spec fn last_value(fields: Seq<HeaderView>, name: Seq<char>) -> Option<Seq<char>>
    decreases fields.len(),
{
    if fields.len() == 0 {
        None
    } else if text::eq_ignore_case(fields.last().name, name) {
        Some(fields.last().value)
    } else {
        last_value(fields.drop_last(), name)
    }
}

impl InternalResponseMetadata {
    /// No metadata.
    pub fn none() -> (r: Self)
        ensures
            r@.len() == 0,
    {
        InternalResponseMetadata { headers: Vec::new() }
    }

    pub fn get(&self, name: &str) -> (r: Option<&str>)
        ensures
            match (r, last_value(self@, name@)) {
                (Some(s), Some(v)) => s@ == v,
                (None, None) => true,
                _ => false,
            },
    {
        let ghost fs = pair_views(self.headers@);
        let mut i: usize = self.headers.len();
        assert(fs.take(i as int) == fs);
        while i > 0
            invariant
                i <= self.headers@.len() == fs.len(),
                fs == pair_views(self.headers@),
                last_value(fs, name@) == last_value(fs.take(i as int), name@),
            decreases i,
        {
            i -= 1;
            proof {
                assert(fs.take(i as int + 1).drop_last() == fs.take(i as int));
                assert(fs[i as int] == pair_view(self.headers@[i as int]));
            }
            let field = &self.headers[i];
            if text::same_ignore_case(field.0.as_str(), name) {
                return Some(field.1.as_str());
            }
        }
        None
    }

    pub fn is_empty(&self) -> (r: bool)
        ensures
            r == (self@.len() == 0),
    {
        assert(pair_views(self.headers@).len() == self.headers@.len());
        self.headers.len() == 0
    }

    pub(crate) fn copy(&self) -> (r: Self)
        ensures
            r@ == self@,
    {
        let ghost fs = pair_views(self.headers@);
        let mut out: Vec<(String, String)> = Vec::new();
        let mut i: usize = 0;
        assert(pair_views(out@) == fs.take(0));
        while i < self.headers.len()
            invariant
                i <= self.headers@.len() == fs.len(),
                fs == pair_views(self.headers@),
                pair_views(out@) == fs.take(i as int),
            decreases self.headers.len() - i,
        {
            let field = &self.headers[i];
            let p = (field.0.clone(), field.1.clone());
            proof {
                lemma_pair_views_push(out@, p);
                assert(fs[i as int] == pair_view(self.headers@[i as int]));
                assert(fs.take(i as int + 1) == fs.take(i as int).push(fs[i as int]));
            }
            out.push(p);
            i += 1;
        }
        assert(fs.take(i as int) == fs);
        InternalResponseMetadata { headers: out }
    }

    pub open spec fn description(fields: nat) -> Seq<char> {
        "InternalResponseMetadata { header_count: "@ + text::decimal(fields) + " }"@
    }

    /// A diagnostic description that withholds the fields.
    pub fn describe(&self) -> (r: String)
        ensures
            r@ == Self::description(self@.len()),
    {
        assert(pair_views(self.headers@).len() == self.headers@.len());
        let mut v = text::to_chars("InternalResponseMetadata { header_count: ");
        let d = text::digits_of(self.headers.len() as u64, 10);
        text::push_chars(&mut v, d.as_slice());
        text::push_str(&mut v, " }");
        text::from_chars(v.as_slice())
    }
}

/// The fields of a response, split by where they may go.
#[derive(PartialEq, Eq)]
pub struct SanitizedResponseHeaders {
    forwarded: Vec<(String, String)>,
    metadata: InternalResponseMetadata,
}

impl View for SanitizedResponseHeaders {
    type V = SanitizedView;

    closed spec fn view(&self) -> SanitizedView {
        SanitizedView { forwarded: pair_views(self.forwarded@), metadata: self.metadata@ }
    }
}

/// Fields that each take one line.
#[verifier::opaque]
pub open spec fn are_line_fields(fields: Seq<HeaderView>) -> bool {
    forall|i: int|
        0 <= i < fields.len() ==> forward::is_token_text((#[trigger] fields[i]).name)
            && is_response_value(fields[i].value)
}

fn copy_pairs(pairs: &Vec<(String, String)>) -> (r: Vec<(String, String)>)
    ensures
        pair_views(r@) == pair_views(pairs@),
{
    let mut v: Vec<(String, String)> = Vec::new();
    let mut i: usize = 0;
    let ghost all = pair_views(pairs@);
    assert(pair_views(v@) =~= all.take(0));
    while i < pairs.len()
        invariant
            i <= pairs@.len() == all.len(),
            all == pair_views(pairs@),
            pair_views(v@) == all.take(i as int),
        decreases pairs.len() - i,
    {
        let p = (pairs[i].0.clone(), pairs[i].1.clone());
        proof {
            lemma_pair_views_push(v@, p);
            assert(pair_view(p) == all[i as int]);
            assert(all.take(i as int + 1) =~= all.take(i as int).push(all[i as int]));
        }
        v.push(p);
        i += 1;
    }
    assert(all.take(i as int) =~= all);
    v
}

impl Clone for SanitizedResponseHeaders {
    fn clone(&self) -> (r: Self)
        ensures
            r@ == self@,
    {
        proof {
            use_type_invariant(self);
        }
        let forwarded = copy_pairs(&self.forwarded);
        let headers = copy_pairs(&self.metadata.headers);
        SanitizedResponseHeaders { forwarded, metadata: InternalResponseMetadata { headers } }
    }
}

impl SanitizedResponseHeaders {
    #[verifier::type_invariant]
    spec fn is_valid(self) -> bool {
        are_line_fields(self@.forwarded)
    }

    pub fn forwarded(&self) -> (r: &[(String, String)])
        ensures
            pair_views(r@) == self@.forwarded,
    {
        self.forwarded.as_slice()
    }

    pub fn metadata(&self) -> (r: &InternalResponseMetadata)
        ensures
            r@ == self@.metadata,
    {
        &self.metadata
    }

    /// A diagnostic description that withholds the fields.
    pub fn describe(&self) -> (r: String)
        ensures
            r@ == "SanitizedResponseHeaders { forwarded_count: "@ + text::decimal(
                self@.forwarded.len(),
            ) + ", metadata: "@ + InternalResponseMetadata::description(self@.metadata.len())
                + " }"@,
    {
        assert(pair_views(self.forwarded@).len() == self.forwarded@.len());
        let mut v = text::to_chars("SanitizedResponseHeaders { forwarded_count: ");
        let d = text::digits_of(self.forwarded.len() as u64, 10);
        text::push_chars(&mut v, d.as_slice());
        text::push_str(&mut v, ", metadata: ");
        let m = self.metadata.describe();
        text::push_str(&mut v, m.as_str());
        text::push_str(&mut v, " }");
        text::from_chars(v.as_slice())
    }
}

proof fn lemma_metadata_grows(headers: Seq<HeaderView>, names: Seq<Seq<char>>, i: int)
    requires
        0 <= i <= headers.len(),
    ensures
        metadata_fields(headers.take(i), names).is_prefix_of(metadata_fields(headers, names)),
    decreases headers.len() - i,
{
    if i == headers.len() {
        assert(headers.take(i) == headers);
        let m = metadata_fields(headers, names);
        assert(m == m.subrange(0, m.len() as int));
    } else {
        lemma_metadata_grows(headers, names, i + 1);
        assert(headers.take(i + 1).drop_last() == headers.take(i));
        let a = metadata_fields(headers.take(i), names);
        let b = metadata_fields(headers.take(i + 1), names);
        let c = metadata_fields(headers, names);
        assert(a == b.subrange(0, a.len() as int));
        assert(a == c.subrange(0, a.len() as int));
    }
}

proof fn lemma_trusted_names_are_internal(name: Seq<char>)
    requires
        is_trusted_name(name),
    ensures
        is_internal_name(name),
{
    reveal_strlit("x-hns-");
    reveal_strlit("x-hns-doh-fallback");
    reveal_strlit("x-hns-resolution-trace");
    reveal_strlit("x-hns-resolver-mode");
    reveal_strlit("x-hns-resolver-policy");
    reveal_strlit("x-hns-security-path");
    reveal_strlit("x-hns-tls-policy");
    let i = choose|i: int| 0 <= i < trusted_names().len() && name == #[trigger] trusted_names()[i];
    assert("x-hns-"@ == name.subrange(0, 6));
}

fn has_name(fields: &[(String, String)], name: &str) -> (r: bool)
    ensures
        r == exists|j: int|
            0 <= j < fields@.len() && text::eq_ignore_case(
                (#[trigger] pair_views(fields@)[j]).name,
                name@,
            ),
{
    let ghost fs = pair_views(fields@);
    let mut i: usize = 0;
    while i < fields.len()
        invariant
            i <= fields@.len() == fs.len(),
            fs == pair_views(fields@),
            forall|j: int| 0 <= j < i ==> !text::eq_ignore_case((#[trigger] fs[j]).name, name@),
        decreases fields.len() - i,
    {
        assert(fs[i as int] == pair_view(fields@[i as int]));
        if text::same_ignore_case(fields[i].0.as_str(), name) {
            assert(text::eq_ignore_case(pair_views(fields@)[i as int].name, name@));
            return true;
        }
        i += 1;
    }
    false
}

/// Splits the fields of an origin response into those that the browser
/// receives and the trusted metadata; everything else is dropped.
pub fn sanitize_response_headers(headers: &[(String, String)]) -> (r: Result<
    SanitizedResponseHeaders,
    ResponseError,
>)
    ensures
        match (r, sanitized_response(pair_views(headers@))) {
            (Ok(s), Ok(v)) => s@ == v,
            (Err(e), Err(f)) => e == f,
            _ => false,
        },
{
    let ghost hs = pair_views(headers@);
    let names = match validate_response_headers(headers) {
        Ok(names) => names,
        Err(e) => {
            return Err(e);
        },
    };
    let ghost ns = forward::char_views(names@);
    let mut out: Vec<(String, String)> = Vec::new();
    let mut kept: Vec<(String, String)> = Vec::new();
    let mut i: usize = 0;
    assert(hs.take(0) == Seq::<HeaderView>::empty());
    assert(pair_views(out@) == Seq::<HeaderView>::empty());
    assert(pair_views(kept@) == Seq::<HeaderView>::empty());
    while i < headers.len()
        invariant
            i <= headers@.len() == hs.len(),
            hs == pair_views(headers@),
            ns == forward::char_views(names@),
            validated(hs) == Ok::<Seq<Seq<char>>, ResponseError>(ns),
            pair_views(out@) == delivered(hs.take(i as int), ns),
            pair_views(kept@) == metadata_fields(hs.take(i as int), ns),
            distinct_names(pair_views(kept@)),
        decreases headers.len() - i,
    {
        let field = &headers[i];
        let low = text::to_lower(field.0.as_str());
        let low_chars = text::to_chars(low.as_str());
        proof {
            assert(hs[i as int] == pair_view(headers@[i as int]));
            assert(hs.take(i as int + 1).drop_last() == hs.take(i as int));
            if is_trusted_name(low@) {
                lemma_trusted_names_are_internal(low@);
            }
        }
        if !forward::contains_name(names.as_slice(), low_chars.as_slice()) {
            if is_internal_header(low.as_str()) {
                if is_trusted_metadata_header(low.as_str()) {
                    let ghost before = pair_views(kept@);
                    let p = (field.0.clone(), field.1.clone());
                    let duplicate = has_name(kept.as_slice(), field.0.as_str());
                    proof {
                        lemma_pair_views_push(kept@, p);
                        let now = metadata_fields(hs.take(i as int + 1), ns);
                        assert(now == before.push(pair_view(p)));
                        if duplicate {
                            let j = choose|j: int|
                                0 <= j < kept@.len() && text::eq_ignore_case(
                                    (#[trigger] pair_views(kept@)[j]).name,
                                    field.0@,
                                );
                            lemma_metadata_grows(hs, ns, i as int + 1);
                            let all = metadata_fields(hs, ns);
                            assert(now == all.subrange(0, now.len() as int));
                            assert(all[j] == now[j] && now[j] == before[j]);
                            assert(all[before.len() as int] == now[before.len() as int]);
                            assert(text::eq_ignore_case(
                                all[j].name,
                                all[before.len() as int].name,
                            ));
                            assert(!distinct_names(all));
                        }
                    }
                    if duplicate {
                        return Err(ResponseError::InvalidHeader);
                    }
                    kept.push(p);
                    proof {
                        let fs = pair_views(kept@);
                        assert forall|a: int, b: int| 0 <= a < b < fs.len() implies !text::eq_ignore_case(
                            (#[trigger] fs[a]).name,
                            (#[trigger] fs[b]).name,
                        ) by {
                            assert(fs[a] == before[a]);
                            if b < before.len() {
                                assert(fs[b] == before[b]);
                            }
                        }
                    }
                }
            } else if !is_proxy_managed_response_header(low.as_str()) {
                let p = (field.0.clone(), field.1.clone());
                proof {
                    lemma_pair_views_push(out@, p);
                }
                out.push(p);
            }
        }
        i += 1;
    }
    assert(hs.take(i as int) == hs);
    proof {
        lemma_delivered_lines(hs, ns);
    }
    Ok(
        SanitizedResponseHeaders {
            forwarded: out,
            metadata: InternalResponseMetadata { headers: kept },
        },
    )
}


// ---------------------------------------------------------------------
// Encoding
// ---------------------------------------------------------------------

/// A reason phrase is printable ASCII, and not empty.
pub open spec fn is_reason(reason: Seq<char>) -> bool {
    reason.len() > 0 && forall|i: int|
        0 <= i < reason.len() ==> 0x20 <= (#[trigger] reason[i] as u32) < 0x7f
}

pub open spec fn checked_reason(reason: Seq<char>) -> Result<(), ResponseError> {
    if byte_len(reason) > MAX_RESPONSE_HEAD_BYTES {
        Err(ResponseError::HeadersTooLarge)
    } else if !is_reason(reason) {
        Err(ResponseError::InvalidReason)
    } else {
        Ok(())
    }
}

pub fn validate_reason(reason: &str) -> (r: Result<(), ResponseError>)
    ensures
        r == checked_reason(reason@),
{
    if text_size(reason) > MAX_RESPONSE_HEAD_BYTES {
        return Err(ResponseError::HeadersTooLarge);
    }
    let chars = text::to_chars(reason);
    if chars.len() == 0 {
        return Err(ResponseError::InvalidReason);
    }
    let mut i: usize = 0;
    while i < chars.len()
        invariant
            i <= chars@.len(),
            chars@ == reason@,
            byte_len(reason@) <= MAX_RESPONSE_HEAD_BYTES,
            forall|j: int| 0 <= j < i ==> 0x20 <= (#[trigger] chars@[j] as u32) < 0x7f,
        decreases chars.len() - i,
    {
        let u: u32 = chars[i] as u32;
        if u < 0x20 || u >= 0x7f {
            return Err(ResponseError::InvalidReason);
        }
        i += 1;
    }
    Ok(())
}

pub open spec fn status_line(status: u16, reason: Seq<char>) -> Seq<char> {
    "HTTP/1.1 "@ + text::decimal(status as nat) + " "@ + reason + "\r\n"@
}

pub open spec fn field_text(h: HeaderView) -> Seq<char> {
    h.name + ": "@ + h.value + "\r\n"@
}

pub open spec fn fields_text(fields: Seq<HeaderView>) -> Seq<char>
    decreases fields.len(),
{
    if fields.len() == 0 {
        Seq::empty()
    } else {
        fields_text(fields.drop_last()) + field_text(fields.last())
    }
}

pub open spec fn forbids_body(status: u16) -> bool {
    status == 204 || status == 205 || status == 304
}

/// The head of a final response: the forwarded fields, then the proxy's own
/// connection and length fields.
pub open spec fn final_head_text(
    status: u16,
    reason: Seq<char>,
    fields: Seq<HeaderView>,
    body_len: u64,
) -> Seq<char> {
    let lead = status_line(status, reason) + fields_text(fields) + "Connection: close\r\n"@;
    let length = if forbids_body(status) {
        Seq::empty()
    } else {
        "Content-Length: "@ + text::decimal(body_len as nat) + "\r\n"@
    };
    lead + length + "\r\n"@
}

/// The head of a WebSocket switch.
pub open spec fn upgrade_head_text(
    status: u16,
    reason: Seq<char>,
    fields: Seq<HeaderView>,
) -> Seq<char> {
    status_line(status, reason) + fields_text(fields)
        + "Connection: Upgrade\r\nUpgrade: websocket\r\n\r\n"@
}

#[verifier::ext_equal]
pub struct EncodedView {
    pub bytes: Seq<u8>,
    pub body_allowed: bool,
}

pub open spec fn encoded_within_limit(head: Seq<char>, body_allowed: bool) -> Result<
    EncodedView,
    ResponseError,
> {
    let bytes = vstd::utf8::encode_utf8(head);
    if bytes.len() > MAX_RESPONSE_HEAD_BYTES {
        Err(ResponseError::HeadersTooLarge)
    } else {
        Ok(EncodedView { bytes, body_allowed })
    }
}

/// The encoded head of a final response.
pub open spec fn encoded_response(
    request_method: Seq<char>,
    status: u16,
    reason: Seq<char>,
    fields: Seq<HeaderView>,
    body_len: u64,
) -> Result<EncodedView, ResponseError> {
    if !(200 <= status <= 599) {
        Err(ResponseError::InvalidStatus)
    } else {
        match checked_reason(reason) {
            Err(e) => Err(e),
            Ok(()) => if forbids_body(status) && body_len != 0 {
                Err(ResponseError::BodyNotAllowed)
            } else {
                encoded_within_limit(
                    final_head_text(status, reason, fields, body_len),
                    !text::eq_ignore_case(request_method, "HEAD"@) && !forbids_body(status),
                )
            },
        }
    }
}

/// The encoded head of a WebSocket switch.
pub open spec fn encoded_upgrade(
    status: u16,
    reason: Seq<char>,
    headers: Seq<HeaderView>,
) -> Result<EncodedView, ResponseError> {
    if status != 101 {
        Err(ResponseError::InvalidStatus)
    } else {
        match checked_reason(reason) {
            Err(e) => Err(e),
            Ok(()) => match validated(headers) {
                Err(e) => Err(e),
                Ok(names) => if !forward::is_websocket_upgrade(headers) {
                    Err(ResponseError::InvalidHeader)
                } else {
                    encoded_within_limit(
                        upgrade_head_text(status, reason, delivered(headers, names)),
                        false,
                    )
                },
            },
        }
    }
}

/// A response head in wire form.
#[derive(Clone, Debug, PartialEq, Eq)]
pub struct EncodedResponseHead {
    bytes: Vec<u8>,
    body_allowed: bool,
}

impl View for EncodedResponseHead {
    type V = EncodedView;

    closed spec fn view(&self) -> EncodedView {
        EncodedView { bytes: self.bytes@, body_allowed: self.body_allowed }
    }
}

impl EncodedResponseHead {
    pub fn as_bytes(&self) -> (r: &[u8])
        ensures
            r@ == self@.bytes,
    {
        self.bytes.as_slice()
    }

    pub fn into_bytes(self) -> (r: Vec<u8>)
        ensures
            r@ == self@.bytes,
    {
        self.bytes
    }

    /// Whether a body may follow the head.
    pub fn body_allowed(&self) -> (r: bool)
        ensures
            r == self@.body_allowed,
    {
        self.body_allowed
    }
}

pub open spec fn same_encoded(
    r: Result<EncodedResponseHead, ResponseError>,
    v: Result<EncodedView, ResponseError>,
) -> bool {
    match (r, v) {
        (Ok(h), Ok(w)) => h@ == w,
        (Err(e), Err(f)) => e == f,
        _ => false,
    }
}

fn push_status_line(out: &mut Vec<char>, status: u16, reason: &str)
    ensures
        final(out)@ == old(out)@ + status_line(status, reason@),
{
    text::push_str(out, "HTTP/1.1 ");
    let d = text::digits_of(status as u64, 10);
    text::push_chars(out, d.as_slice());
    text::push_str(out, " ");
    text::push_str(out, reason);
    text::push_str(out, "\r\n");
    assert(out@ =~= old(out)@ + status_line(status, reason@));
}

fn push_field(out: &mut Vec<char>, name: &str, value: &str)
    ensures
        final(out)@ == old(out)@ + field_text(HeaderView { name: name@, value: value@ }),
{
    text::push_str(out, name);
    text::push_str(out, ": ");
    text::push_str(out, value);
    text::push_str(out, "\r\n");
    assert(out@ =~= old(out)@ + field_text(HeaderView { name: name@, value: value@ }));
}

fn finish_head(head: Vec<char>, body_allowed: bool) -> (r: Result<
    EncodedResponseHead,
    ResponseError,
>)
    ensures
        same_encoded(r, encoded_within_limit(head@, body_allowed)),
{
    let s = text::from_chars(head.as_slice());
    let mut bytes: Vec<u8> = Vec::new();
    text::push_text(&mut bytes, s.as_str());
    assert(bytes@ == vstd::utf8::encode_utf8(head@));
    if bytes.len() > MAX_RESPONSE_HEAD_BYTES {
        return Err(ResponseError::HeadersTooLarge);
    }
    Ok(EncodedResponseHead { bytes, body_allowed })
}

/// Encodes the head of a final response with the proxy's own framing.
pub fn encode_response_head(
    request_method: &str,
    status: u16,
    reason: &str,
    headers: &SanitizedResponseHeaders,
    body_len: u64,
) -> (r: Result<EncodedResponseHead, ResponseError>)
    ensures
        same_encoded(
            r,
            encoded_response(request_method@, status, reason@, headers@.forwarded, body_len),
        ),
        r matches Ok(e) ==> is_one_head(e@.bytes),
{
    if status < 200 || status > 599 {
        return Err(ResponseError::InvalidStatus);
    }
    match validate_reason(reason) {
        Ok(()) => {},
        Err(e) => {
            return Err(e);
        },
    }
    let bodyless = status == 204 || status == 205 || status == 304;
    if bodyless && body_len != 0 {
        return Err(ResponseError::BodyNotAllowed);
    }
    let body_allowed = !text::same_ignore_case(request_method, "HEAD") && !bodyless;
    let mut head: Vec<char> = Vec::new();
    push_status_line(&mut head, status, reason);
    let fields = headers.forwarded();
    let ghost fs = pair_views(fields@);
    let ghost lead = status_line(status, reason@);
    let mut i: usize = 0;
    assert(fs.take(0) == Seq::<HeaderView>::empty());
    assert(head@ == lead + fields_text(fs.take(0)));
    while i < fields.len()
        invariant
            i <= fields@.len() == fs.len(),
            fs == pair_views(fields@),
            head@ == lead + fields_text(fs.take(i as int)),
        decreases fields.len() - i,
    {
        let field = &fields[i];
        proof {
            assert(fs[i as int] == pair_view(fields@[i as int]));
            assert(fs.take(i as int + 1).drop_last() == fs.take(i as int));
            assert(lead + fields_text(fs.take(i as int + 1)) == lead + fields_text(
                fs.take(i as int),
            ) + field_text(fs[i as int]));
        }
        push_field(&mut head, field.0.as_str(), field.1.as_str());
        i += 1;
    }
    assert(fs.take(i as int) == fs);
    text::push_str(&mut head, "Connection: close\r\n");
    if !bodyless {
        text::push_str(&mut head, "Content-Length: ");
        let d = text::digits_of(body_len, 10);
        text::push_chars(&mut head, d.as_slice());
        text::push_str(&mut head, "\r\n");
    }
    text::push_str(&mut head, "\r\n");
    assert(head@ =~= final_head_text(status, reason@, fs, body_len));
    let ghost written = head@;
    let r = finish_head(head, body_allowed);
    proof {
        use_type_invariant(headers);
        final_heads_end_once(fs, status, reason@, body_len);
        let start = "HTTP/1.1 "@;
        assert(start =~= written.subrange(0, start.len() as int));
        if r is Ok {
            lemma_one_head(written);
        }
    }
    r
}

fn pair_values<'a>(headers: &'a [(String, String)], name: &str) -> (r: Vec<&'a str>)
    ensures
        http1::texts(r@) == http1::values_of(pair_views(headers@), name@),
{
    let ghost hs = pair_views(headers@);
    let mut v: Vec<&'a str> = Vec::new();
    let mut i: usize = 0;
    assert(http1::texts(v@) == Seq::<Seq<char>>::empty());
    assert(hs.take(0) == Seq::<HeaderView>::empty());
    while i < headers.len()
        invariant
            i <= headers@.len() == hs.len(),
            hs == pair_views(headers@),
            http1::texts(v@) == http1::values_of(hs.take(i as int), name@),
        decreases headers.len() - i,
    {
        let h = &headers[i];
        proof {
            assert(hs.take(i as int + 1).drop_last() == hs.take(i as int));
            assert(hs[i as int] == pair_view(headers@[i as int]));
        }
        if text::same_ignore_case(h.0.as_str(), name) {
            let value = h.1.as_str();
            let ghost before = v@;
            v.push(value);
            assert(http1::texts(v@) == http1::texts(before).push(value@));
        }
        i += 1;
    }
    assert(hs.take(i as int) == hs);
    v
}

fn pairs_ask_upgrade(headers: &[(String, String)]) -> (r: bool)
    ensures
        r == forward::asks_upgrade(pair_views(headers@)),
{
    let ghost hs = pair_views(headers@);
    let mut i: usize = 0;
    while i < headers.len()
        invariant
            i <= headers@.len() == hs.len(),
            hs == pair_views(headers@),
            forall|j: int|
                0 <= j < i ==> !(text::eq_ignore_case((#[trigger] hs[j]).name, "connection"@)
                    && forward::has_member(hs[j].value, "upgrade"@)),
        decreases headers.len() - i,
    {
        let h = &headers[i];
        assert(hs[i as int] == pair_view(headers@[i as int]));
        if text::same_ignore_case(h.0.as_str(), "connection") && forward::has_header_token(
            h.1.as_str(),
            "upgrade",
        ) {
            return true;
        }
        i += 1;
    }
    false
}

/// Encodes the head of a WebSocket switch. Framing, proxy, internal and
/// nominated fields of the origin are never copied.
pub fn encode_upgrade_response_head(
    status: u16,
    reason: &str,
    headers: &[(String, String)],
) -> (r: Result<EncodedResponseHead, ResponseError>)
    ensures
        same_encoded(r, encoded_upgrade(status, reason@, pair_views(headers@))),
        r matches Ok(e) ==> is_one_head(e@.bytes),
{
    let ghost hs = pair_views(headers@);
    if status != 101 {
        return Err(ResponseError::InvalidStatus);
    }
    match validate_reason(reason) {
        Ok(()) => {},
        Err(e) => {
            return Err(e);
        },
    }
    let names = match validate_response_headers(headers) {
        Ok(names) => names,
        Err(e) => {
            return Err(e);
        },
    };
    let ghost ns = forward::char_views(names@);
    let values = pair_values(headers, "upgrade");
    assert(http1::texts(values@).len() == values@.len());
    if !pairs_ask_upgrade(headers) || values.len() != 1 {
        return Err(ResponseError::InvalidHeader);
    }
    assert(http1::texts(values@)[0] == values@[0]@);
    if !text::same_ignore_case(values[0], "websocket") {
        return Err(ResponseError::InvalidHeader);
    }
    let mut head: Vec<char> = Vec::new();
    push_status_line(&mut head, status, reason);
    let ghost lead = status_line(status, reason@);
    let mut i: usize = 0;
    assert(hs.take(0) == Seq::<HeaderView>::empty());
    assert(head@ == lead + fields_text(delivered(hs.take(0), ns)));
    while i < headers.len()
        invariant
            i <= headers@.len() == hs.len(),
            hs == pair_views(headers@),
            ns == forward::char_views(names@),
            head@ == lead + fields_text(delivered(hs.take(i as int), ns)),
        decreases headers.len() - i,
    {
        let field = &headers[i];
        let low = text::to_lower(field.0.as_str());
        let low_chars = text::to_chars(low.as_str());
        proof {
            assert(hs[i as int] == pair_view(headers@[i as int]));
            assert(hs.take(i as int + 1).drop_last() == hs.take(i as int));
        }
        if !forward::contains_name(names.as_slice(), low_chars.as_slice()) && !is_internal_header(
            low.as_str(),
        ) && !is_proxy_managed_response_header(low.as_str()) {
            proof {
                let before = delivered(hs.take(i as int), ns);
                let now = delivered(hs.take(i as int + 1), ns);
                assert(now == before.push(hs[i as int]));
                assert(now.drop_last() == before);
                assert(lead + fields_text(now) == lead + fields_text(before) + field_text(
                    hs[i as int],
                ));
            }
            push_field(&mut head, field.0.as_str(), field.1.as_str());
        }
        i += 1;
    }
    assert(hs.take(i as int) == hs);
    text::push_str(&mut head, "Connection: Upgrade\r\nUpgrade: websocket\r\n\r\n");
    let ghost written = head@;
    let r = finish_head(head, false);
    proof {
        lemma_delivered_lines(hs, ns);
        upgrade_heads_end_once(delivered(hs, ns), status, reason@);
        let start = "HTTP/1.1 "@;
        assert(start =~= written.subrange(0, start.len() as int));
        if r is Ok {
            lemma_one_head(written);
        }
    }
    r
}

// ---------------------------------------------------------------------
// Laws
// ---------------------------------------------------------------------

/// What the browser receives came from the origin, is not internal, is not
/// managed by the proxy and is not nominated.
pub proof fn delivered_fields_are_public(headers: Seq<HeaderView>, names: Seq<Seq<char>>)
    ensures
        forall|i: int|
            0 <= i < delivered(headers, names).len() ==> {
                &&& headers.contains(#[trigger] delivered(headers, names)[i])
                &&& is_delivered(delivered(headers, names)[i], names)
            },
    decreases headers.len(),
{
    if headers.len() > 0 {
        let rest = headers.drop_last();
        delivered_fields_are_public(rest, names);
        assert forall|i: int| 0 <= i < delivered(headers, names).len() implies headers.contains(
            #[trigger] delivered(headers, names)[i],
        ) && is_delivered(delivered(headers, names)[i], names) by {
            let f = delivered(headers, names)[i];
            if i < delivered(rest, names).len() {
                assert(f == delivered(rest, names)[i]);
                let j = choose|j: int| 0 <= j < rest.len() && rest[j] == f;
                assert(headers[j] == f);
            } else {
                assert(headers.last() == f);
            }
        }
    }
}

/// Metadata holds trusted, unnominated fields of the response only.
pub proof fn metadata_is_trusted(headers: Seq<HeaderView>, names: Seq<Seq<char>>)
    ensures
        forall|i: int|
            0 <= i < metadata_fields(headers, names).len() ==> {
                &&& headers.contains(#[trigger] metadata_fields(headers, names)[i])
                &&& is_metadata(metadata_fields(headers, names)[i], names)
            },
    decreases headers.len(),
{
    if headers.len() > 0 {
        let rest = headers.drop_last();
        metadata_is_trusted(rest, names);
        assert forall|i: int|
            0 <= i < metadata_fields(headers, names).len() implies headers.contains(
            #[trigger] metadata_fields(headers, names)[i],
        ) && is_metadata(metadata_fields(headers, names)[i], names) by {
            let f = metadata_fields(headers, names)[i];
            if i < metadata_fields(rest, names).len() {
                assert(f == metadata_fields(rest, names)[i]);
                let j = choose|j: int| 0 <= j < rest.len() && rest[j] == f;
                assert(headers[j] == f);
            } else {
                assert(headers.last() == f);
            }
        }
    }
}


/// Text made of non-empty lines that each end in a carriage return and a line
/// feed, which stand nowhere else.
pub open spec fn is_lines(t: Seq<char>) -> bool {
    &&& t.len() > 0 ==> t[0] != '\r' && t[0] != '\n' && t.last() == '\n'
    &&& forall|i: int|
        0 <= i < t.len() && #[trigger] t[i] == '\n' ==> i > 0 && t[i - 1] == '\r'
    &&& forall|i: int|
        0 <= i < t.len() && #[trigger] t[i] == '\r' ==> i + 1 < t.len() && t[i + 1] == '\n' && (i + 2
            < t.len() ==> t[i + 2] != '\r' && t[i + 2] != '\n')
}

/// Whether an empty line begins at `i`.
pub open spec fn is_text_end(t: Seq<char>, i: int) -> bool {
    0 <= i && i + 4 <= t.len() && t[i] == '\r' && t[i + 1] == '\n' && t[i + 2] == '\r' && t[i + 3]
        == '\n'
}

pub open spec fn ends_once(t: Seq<char>) -> bool {
    &&& is_text_end(t, t.len() - 4)
    &&& forall|i: int| #[trigger] is_text_end(t, i) ==> i == t.len() - 4
}

proof fn lemma_lines_join(a: Seq<char>, b: Seq<char>)
    requires
        is_lines(a),
        is_lines(b),
    ensures
        is_lines(a + b),
{
    let t = a + b;
    assert forall|i: int| 0 <= i < t.len() && #[trigger] t[i] == '\n' implies i > 0 && t[i - 1]
        == '\r' by {
        if i < a.len() {
            assert(a[i] == '\n');
        } else {
            assert(b[i - a.len()] == '\n');
        }
    }
    assert forall|i: int| 0 <= i < t.len() && #[trigger] t[i] == '\r' implies i + 1 < t.len() && t[i
        + 1] == '\n' && (i + 2 < t.len() ==> t[i + 2] != '\r' && t[i + 2] != '\n') by {
        if i < a.len() {
            assert(a[i] == '\r');
            if i + 2 == a.len() && b.len() > 0 {
                assert(t[i + 2] == b[0]);
            }
        } else {
            assert(b[i - a.len()] == '\r');
        }
    }
    if t.len() > 0 {
        if b.len() > 0 {
            assert(t.last() == b.last());
        } else {
            assert(t == a);
        }
        if a.len() > 0 {
            assert(t[0] == a[0]);
        } else {
            assert(t == b);
        }
    }
}

proof fn lemma_one_line(line: Seq<char>)
    requires
        line.len() > 0,
        forall|i: int| 0 <= i < line.len() ==> #[trigger] line[i] != '\r' && line[i] != '\n',
    ensures
        is_lines(line + "\r\n"@),
{
    reveal_strlit("\r\n");
    let t = line + "\r\n"@;
    let n = line.len() as int;
    assert(t[n] == '\r' && t[n + 1] == '\n');
    assert forall|i: int| 0 <= i < n implies t[i] == line[i] by {}
    assert(t[0] == line[0]);
}

proof fn lemma_lines_end_once(t: Seq<char>)
    requires
        is_lines(t),
        t.len() > 0,
    ensures
        ends_once(t + "\r\n"@),
{
    reveal_strlit("\r\n");
    let u = t + "\r\n"@;
    let n = t.len() as int;
    assert(t.last() == t[n - 1]);
    assert(t[n - 2] == '\r');
    assert(u[n - 2] == '\r' && u[n - 1] == '\n' && u[n] == '\r' && u[n + 1] == '\n');
    assert forall|i: int| #[trigger] is_text_end(u, i) implies i == u.len() - 4 by {
        if i < n - 2 {
            assert(t[i] == '\r');
            assert(t[i + 2] == u[i + 2]);
        } else if i == n - 1 {
            assert(u[i] == t[n - 1]);
        }
    }
}

proof fn lemma_digits_clean(n: nat)
    ensures
        forall|i: int|
            0 <= i < text::decimal(n).len() ==> #[trigger] text::decimal(n)[i] != '\r'
                && text::decimal(n)[i] != '\n',
{
    text::digits_denote_their_number(n, 10);
    assert forall|i: int| 0 <= i < text::decimal(n).len() implies #[trigger] text::decimal(n)[i]
        != '\r' && text::decimal(n)[i] != '\n' by {
        assert(text::is_digit(text::decimal(n)[i]));
    }
}

proof fn lemma_status_line(status: u16, reason: Seq<char>)
    requires
        is_reason(reason),
    ensures
        is_lines(status_line(status, reason)),
{
    reveal_strlit("HTTP/1.1 ");
    reveal_strlit(" ");
    lemma_digits_clean(status as nat);
    let d = text::decimal(status as nat);
    let line = "HTTP/1.1 "@ + d + " "@ + reason;
    assert forall|i: int| 0 <= i < line.len() implies #[trigger] line[i] != '\r' && line[i]
        != '\n' by {
        if 9 <= i < 9 + d.len() {
            assert(line[i] == d[i - 9]);
        } else if i >= 10 + d.len() {
            assert(line[i] == reason[i - 10 - d.len()]);
        }
    }
    lemma_one_line(line);
    assert(status_line(status, reason) == line + "\r\n"@);
}

proof fn lemma_field_lines(h: HeaderView)
    requires
        forward::is_token_text(h.name),
        is_response_value(h.value),
    ensures
        is_lines(field_text(h)),
{
    reveal_strlit(": ");
    let line = h.name + ": "@ + h.value;
    let n = h.name.len() as int;
    assert forall|i: int| 0 <= i < line.len() implies #[trigger] line[i] != '\r' && line[i]
        != '\n' by {
        if i < n {
            assert(line[i] == h.name[i]);
        } else if i >= n + 2 {
            assert(line[i] == h.value[i - n - 2]);
        }
    }
    lemma_one_line(line);
}

proof fn lemma_fields_lines(fields: Seq<HeaderView>)
    requires
        are_line_fields(fields),
    ensures
        is_lines(fields_text(fields)),
    decreases fields.len(),
{
    reveal(are_line_fields);
    if fields.len() > 0 {
        let rest = fields.drop_last();
        assert forall|i: int| 0 <= i < rest.len() implies forward::is_token_text(
            (#[trigger] rest[i]).name,
        ) && is_response_value(rest[i].value) by {
            assert(rest[i] == fields[i]);
        }
        lemma_fields_lines(rest);
        assert(fields.last() == fields[fields.len() - 1]);
        lemma_field_lines(fields.last());
        lemma_lines_join(fields_text(rest), field_text(fields.last()));
    }
}

proof fn lemma_delivered_lines(headers: Seq<HeaderView>, names: Seq<Seq<char>>)
    requires
        all_valid_fields(headers),
    ensures
        are_line_fields(delivered(headers, names)),
{
    reveal(are_line_fields);
    delivered_fields_are_public(headers, names);
    let d = delivered(headers, names);
    assert forall|i: int| 0 <= i < d.len() implies forward::is_token_text((#[trigger] d[i]).name)
        && is_response_value(d[i].value) by {
        let j = choose|j: int| 0 <= j < headers.len() && headers[j] == d[i];
        assert(is_valid_field(headers[j]));
    }
}

/// No field or reason phrase can end a final response head early: the empty line
/// stands at its end and nowhere else.
#[verifier::rlimit(40)]
pub proof fn final_heads_end_once(
    fields: Seq<HeaderView>,
    status: u16,
    reason: Seq<char>,
    body_len: u64,
)
    requires
        are_line_fields(fields),
        is_reason(reason),
    ensures
        ends_once(final_head_text(status, reason, fields, body_len)),
{
    reveal_strlit("Connection: close\r\n");
    reveal_strlit("Content-Length: ");
    lemma_status_line(status, reason);
    lemma_fields_lines(fields);
    let a = status_line(status, reason) + fields_text(fields);
    lemma_lines_join(status_line(status, reason), fields_text(fields));
    let close = "Connection: close\r\n"@;
    assert(is_lines(close));
    lemma_lines_join(a, close);
    let lead = a + close;
    if forbids_body(status) {
        assert(lead + Seq::<char>::empty() == lead);
        lemma_lines_end_once(lead);
    } else {
        let d = text::decimal(body_len as nat);
        lemma_digits_clean(body_len as nat);
        let line = "Content-Length: "@ + d;
        assert forall|i: int| 0 <= i < line.len() implies #[trigger] line[i] != '\r' && line[i]
            != '\n' by {
            if i >= 16 {
                assert(line[i] == d[i - 16]);
            }
        }
        lemma_one_line(line);
        let length = line + "\r\n"@;
        lemma_lines_join(lead, length);
        lemma_lines_end_once(lead + length);
    }
}

proof fn lemma_upgrade_lines()
    ensures
        is_lines("Connection: Upgrade\r\nUpgrade: websocket\r\n"@),
        "Connection: Upgrade\r\nUpgrade: websocket\r\n\r\n"@
            == "Connection: Upgrade\r\nUpgrade: websocket\r\n"@ + "\r\n"@,
        "Connection: Upgrade\r\nUpgrade: websocket\r\n"@.len() > 0,
{
    reveal_strlit("Connection: Upgrade\r\nUpgrade: websocket\r\n\r\n");
    reveal_strlit("Connection: Upgrade\r\nUpgrade: websocket\r\n");
    reveal_strlit("\r\n");
    let tail = "Connection: Upgrade\r\nUpgrade: websocket\r\n"@;
    assert("Connection: Upgrade\r\nUpgrade: websocket\r\n\r\n"@ =~= tail + "\r\n"@);
}

/// The same holds of the head of a WebSocket switch.
pub proof fn upgrade_heads_end_once(fields: Seq<HeaderView>, status: u16, reason: Seq<char>)
    requires
        are_line_fields(fields),
        is_reason(reason),
    ensures
        ends_once(upgrade_head_text(status, reason, fields)),
{
    lemma_status_line(status, reason);
    lemma_fields_lines(fields);
    lemma_lines_join(status_line(status, reason), fields_text(fields));
    let a = status_line(status, reason) + fields_text(fields);
    let tail = "Connection: Upgrade\r\nUpgrade: websocket\r\n"@;
    lemma_upgrade_lines();
    lemma_lines_join(a, tail);
    lemma_lines_end_once(a + tail);
    assert(upgrade_head_text(status, reason, fields) == a + tail + "\r\n"@);
}

/// Whether an empty line begins at byte `i`.
pub open spec fn is_byte_end(b: Seq<u8>, i: int) -> bool {
    0 <= i && i + 4 <= b.len() && b[i] == 0x0d && b[i + 1] == 0x0a && b[i + 2] == 0x0d && b[i + 3]
        == 0x0a
}

/// Whether bytes are one response head: within the limit, of HTTP/1.1, with one empty
/// line, at their end.
pub open spec fn is_one_head(b: Seq<u8>) -> bool {
    &&& b.len() <= MAX_RESPONSE_HEAD_BYTES
    &&& vstd::utf8::encode_utf8("HTTP/1.1 "@).is_prefix_of(b)
    &&& is_byte_end(b, b.len() - 4)
    &&& forall|i: int| #[trigger] is_byte_end(b, i) ==> i == b.len() - 4
}

/// Bytes below 0x80 stand for the character of that number, and for nothing else.
proof fn lemma_encoded_scalar(c: char)
    ensures
        ({
            let e = vstd::utf8::encode_scalar(c as u32);
            &&& e.len() >= 1
            &&& (c as u32) < 0x80 ==> e.len() == 1 && e[0] as u32 == c as u32
            &&& (c as u32) >= 0x80 ==> forall|i: int| 0 <= i < e.len() ==> #[trigger] e[i] >= 0x80
        }),
{
    let n = c as u32;
    assert(n < 0x80 ==> vstd::utf8::leading_byte_width_1(n) as u32 == n) by (bit_vector);
    assert(vstd::utf8::leading_byte_width_2(n) >= 0x80 && vstd::utf8::leading_byte_width_3(n)
        >= 0x80 && vstd::utf8::leading_byte_width_4(n) >= 0x80
        && vstd::utf8::last_continuation_byte(n) >= 0x80
        && vstd::utf8::second_last_continuation_byte(n) >= 0x80
        && vstd::utf8::third_last_continuation_byte(n) >= 0x80) by (bit_vector);
}

/// The first byte of a text, where it is below 0x80, is its first character.
proof fn lemma_first_byte(t: Seq<char>)
    requires
        vstd::utf8::encode_utf8(t).len() > 0,
        vstd::utf8::encode_utf8(t)[0] < 0x80,
    ensures
        t.len() > 0,
        t[0] as u32 == vstd::utf8::encode_utf8(t)[0] as u32,
        vstd::utf8::encode_utf8(t).drop_first() == vstd::utf8::encode_utf8(t.drop_first()),
{
    lemma_encoded_scalar(t[0]);
    let e = vstd::utf8::encode_scalar(t[0] as u32);
    assert(vstd::utf8::encode_utf8(t)[0] == e[0]);
    assert(vstd::utf8::encode_utf8(t).drop_first() =~= vstd::utf8::encode_utf8(t.drop_first()));
}

proof fn lemma_line_end_chars(c: char)
    ensures
        c as u32 == 0x0d <==> c == '\r',
        c as u32 == 0x0a <==> c == '\n',
{
}

/// An empty line in the bytes is one in the text, with as many bytes after it as the
/// text after it takes.
proof fn lemma_byte_end(t: Seq<char>, i: int) -> (k: int)
    requires
        is_byte_end(vstd::utf8::encode_utf8(t), i),
    ensures
        is_text_end(t, k),
        vstd::utf8::encode_utf8(t).len() - i == vstd::utf8::encode_utf8(t.skip(k)).len(),
    decreases t.len(),
{
    let b = vstd::utf8::encode_utf8(t);
    assert(t.len() > 0);
    let e = vstd::utf8::encode_scalar(t[0] as u32);
    let rest = t.drop_first();
    let r = vstd::utf8::encode_utf8(rest);
    lemma_encoded_scalar(t[0]);
    assert(b == e + r);
    if i >= e.len() {
        let j = i - e.len();
        assert(r[j] == b[i] && r[j + 1] == b[i + 1] && r[j + 2] == b[i + 2] && r[j + 3] == b[i
            + 3]);
        let k = lemma_byte_end(rest, j);
        assert(t.skip(k + 1) =~= rest.skip(k));
        assert(t[k + 1] == rest[k] && t[k + 2] == rest[k + 1] && t[k + 3] == rest[k + 2] && t[k + 4]
            == rest[k + 3]);
        assert(is_text_end(t, k + 1));
        k + 1
    } else {
        assert(b[i] == e[i]);
        assert(i == 0);
        lemma_first_byte(t);
        let t1 = t.drop_first();
        assert(vstd::utf8::encode_utf8(t1)[0] == b[1]);
        lemma_first_byte(t1);
        let t2 = t1.drop_first();
        assert(vstd::utf8::encode_utf8(t2)[0] == b[2]);
        lemma_first_byte(t2);
        let t3 = t2.drop_first();
        assert(vstd::utf8::encode_utf8(t3)[0] == b[3]);
        lemma_first_byte(t3);
        assert(t[1] == t1[0] && t[2] == t2[0] && t[3] == t3[0]);
        assert(t.skip(0) =~= t);
        lemma_line_end_chars(t[0]);
        lemma_line_end_chars(t[1]);
        lemma_line_end_chars(t[2]);
        lemma_line_end_chars(t[3]);
        0
    }
}

proof fn lemma_encode_append(a: Seq<char>, b: Seq<char>)
    ensures
        vstd::utf8::encode_utf8(a + b) == vstd::utf8::encode_utf8(a) + vstd::utf8::encode_utf8(b),
    decreases a.len(),
{
    if a.len() == 0 {
        assert(a + b =~= b);
        assert(vstd::utf8::encode_utf8(a) =~= Seq::<u8>::empty());
    } else {
        assert((a + b).drop_first() =~= a.drop_first() + b);
        lemma_encode_append(a.drop_first(), b);
        assert(vstd::utf8::encode_utf8(a + b) =~= vstd::utf8::encode_utf8(a)
            + vstd::utf8::encode_utf8(b));
    }
}

/// A head whose text ends once is one head in bytes, whatever its characters are.
proof fn lemma_one_head(t: Seq<char>)
    requires
        ends_once(t),
        "HTTP/1.1 "@.is_prefix_of(t),
        vstd::utf8::encode_utf8(t).len() <= MAX_RESPONSE_HEAD_BYTES,
    ensures
        is_one_head(vstd::utf8::encode_utf8(t)),
{
    let b = vstd::utf8::encode_utf8(t);
    let n = t.len() as int;
    let end = t.skip(n - 4);
    let lead = t.take(n - 4);
    assert(t =~= lead + end);
    lemma_encode_append(lead, end);
    assert(vstd::utf8::is_ascii_chars(end));
    vstd::utf8::is_ascii_chars_encode_utf8(end);
    let m = vstd::utf8::encode_utf8(lead).len() as int;
    assert(end[0] == '\r' && end[1] == '\n' && end[2] == '\r' && end[3] == '\n');
    assert(is_byte_end(b, m));
    assert forall|i: int| #[trigger] is_byte_end(b, i) implies i == b.len() - 4 by {
        let k = lemma_byte_end(t, i);
        assert(k == n - 4);
    }
    let start = "HTTP/1.1 "@;
    assert(t =~= start + t.skip(start.len() as int));
    lemma_encode_append(start, t.skip(start.len() as int));
    let s = vstd::utf8::encode_utf8(start);
    assert(s =~= b.subrange(0, s.len() as int));
}

/// Whether a Connection field of a response lists a name: between commas, without the
/// whitespace around it, whatever its case.
pub open spec fn is_listed(headers: Seq<HeaderView>, low: Seq<char>) -> bool {
    exists|i: int, j: int|
        #![trigger headers[i], forward::members(headers[i].value)[j]]
        0 <= i < headers.len() && text::lower(headers[i].name) == "connection"@ && 0 <= j
            < forward::members(headers[i].value).len() && text::lower(
            forward::members(headers[i].value)[j],
        ) == low
}

proof fn lemma_lower_connection()
    ensures
        text::lower("connection"@) == "connection"@,
{
    reveal_strlit("connection");
    assert(text::lower("connection"@) =~= "connection"@);
}

proof fn lemma_listed(headers: Seq<HeaderView>, low: Seq<char>)
    ensures
        connection_names(headers).contains(low) <==> is_listed(headers, low),
    decreases headers.len(),
{
    lemma_lower_connection();
    if headers.len() > 0 {
        let rest = headers.drop_last();
        let last = headers.last();
        lemma_listed(rest, low);
        let before = connection_names(rest);
        let all = connection_names(headers);
        let more = forward::lower_all(forward::members(last.value));
        let lists = text::eq_ignore_case(last.name, "connection"@);
        assert(headers[headers.len() - 1] == last);
        if is_listed(rest, low) {
            let (i, j) = choose|i: int, j: int|
                #![trigger rest[i], forward::members(rest[i].value)[j]]
                0 <= i < rest.len() && text::lower(rest[i].name) == "connection"@ && 0 <= j
                    < forward::members(rest[i].value).len() && text::lower(
                    forward::members(rest[i].value)[j],
                ) == low;
            assert(headers[i] == rest[i]);
            assert(text::lower(forward::members(headers[i].value)[j]) == low);
            assert(is_listed(headers, low));
        }
        if before.contains(low) && lists {
            let k = choose|k: int| 0 <= k < before.len() && before[k] == low;
            assert(all[k] == low);
        }
        if all.contains(low) && lists {
            let k = choose|k: int| 0 <= k < all.len() && all[k] == low;
            if k < before.len() {
                assert(before[k] == low);
                assert(before.contains(low));
            } else {
                let j = k - before.len();
                assert(more[j] == low);
                assert(text::lower(forward::members(headers[headers.len() - 1].value)[j]) == low);
                assert(is_listed(headers, low));
            }
        }
        if is_listed(headers, low) {
            let (i, j) = choose|i: int, j: int|
                #![trigger headers[i], forward::members(headers[i].value)[j]]
                0 <= i < headers.len() && text::lower(headers[i].name) == "connection"@ && 0 <= j
                    < forward::members(headers[i].value).len() && text::lower(
                    forward::members(headers[i].value)[j],
                ) == low;
            if i < rest.len() {
                assert(rest[i] == headers[i]);
                assert(text::lower(forward::members(rest[i].value)[j]) == low);
                assert(is_listed(rest, low));
            } else {
                assert(more[j] == low);
                assert(all[before.len() + j] == low);
            }
        }
    }
}

proof fn lemma_managed(low: Seq<char>)
    ensures
        is_managed_name(low) <==> {
            ||| low == "connection"@
            ||| low == "alt-svc"@
            ||| low == "content-length"@
            ||| low == "keep-alive"@
            ||| low == "te"@
            ||| low == "trailer"@
            ||| low == "transfer-encoding"@
            ||| low == "upgrade"@
            ||| "proxy-"@.is_prefix_of(low)
        },
        is_trusted_name(low) <==> {
            ||| low == "x-hns-doh-fallback"@
            ||| low == "x-hns-resolution-trace"@
            ||| low == "x-hns-resolver-mode"@
            ||| low == "x-hns-resolver-policy"@
            ||| low == "x-hns-security-path"@
            ||| low == "x-hns-tls-policy"@
        },
{
    let names = managed_names();
    assert(names.len() == 8);
    assert(names[0] == "connection"@);
    assert(names[1] == "alt-svc"@);
    assert(names[2] == "content-length"@);
    assert(names[3] == "keep-alive"@);
    assert(names[4] == "te"@);
    assert(names[5] == "trailer"@);
    assert(names[6] == "transfer-encoding"@);
    assert(names[7] == "upgrade"@);
    let trusted = trusted_names();
    assert(trusted.len() == 6);
    assert(trusted[0] == "x-hns-doh-fallback"@);
    assert(trusted[1] == "x-hns-resolution-trace"@);
    assert(trusted[2] == "x-hns-resolver-mode"@);
    assert(trusted[3] == "x-hns-resolver-policy"@);
    assert(trusted[4] == "x-hns-security-path"@);
    assert(trusted[5] == "x-hns-tls-policy"@);
}

proof fn lemma_delivered_is_filter(
    headers: Seq<HeaderView>,
    names: Seq<Seq<char>>,
    keep: spec_fn(HeaderView) -> bool,
)
    requires
        forall|h: HeaderView| keep(h) == #[trigger] is_delivered(h, names),
    ensures
        delivered(headers, names) == headers.filter(keep),
    decreases headers.len(),
{
    reveal(Seq::filter);
    if headers.len() > 0 {
        lemma_delivered_is_filter(headers.drop_last(), names, keep);
        assert(keep(headers.last()) == is_delivered(headers.last(), names));
    } else {
        assert(headers.filter(keep) =~= Seq::empty());
    }
}

proof fn lemma_metadata_is_filter(
    headers: Seq<HeaderView>,
    names: Seq<Seq<char>>,
    keep: spec_fn(HeaderView) -> bool,
)
    requires
        forall|h: HeaderView| keep(h) == #[trigger] is_metadata(h, names),
    ensures
        metadata_fields(headers, names) == headers.filter(keep),
    decreases headers.len(),
{
    reveal(Seq::filter);
    if headers.len() > 0 {
        lemma_metadata_is_filter(headers.drop_last(), names, keep);
        assert(keep(headers.last()) == is_metadata(headers.last(), names));
    } else {
        assert(headers.filter(keep) =~= Seq::empty());
    }
}

/// The browser gets the fields of a response in order and unchanged, but for the eight that
/// the proxy manages, those of proxies, the internal ones, and those that the response's
/// Connection fields list: cookies, redirections and content types among them. The
/// metadata are the six trusted internal fields, in order and unchanged, where they are
/// not listed.
pub proof fn responses_reach_the_browser(headers: Seq<HeaderView>)
    requires
        sanitized_response(headers) is Ok,
    ensures
        sanitized_response(headers)->Ok_0.forwarded == headers.filter(
            |h: HeaderView| {
                let low = text::lower(h.name);
                &&& low != "connection"@
                &&& low != "alt-svc"@
                &&& low != "content-length"@
                &&& low != "keep-alive"@
                &&& low != "te"@
                &&& low != "trailer"@
                &&& low != "transfer-encoding"@
                &&& low != "upgrade"@
                &&& !"proxy-"@.is_prefix_of(low) && !"x-hns-"@.is_prefix_of(low)
                &&& !is_listed(headers, low)
            },
        ),
        sanitized_response(headers)->Ok_0.metadata == headers.filter(
            |h: HeaderView| {
                let low = text::lower(h.name);
                &&& !is_listed(headers, low)
                &&& {
                    ||| low == "x-hns-doh-fallback"@
                    ||| low == "x-hns-resolution-trace"@
                    ||| low == "x-hns-resolver-mode"@
                    ||| low == "x-hns-resolver-policy"@
                    ||| low == "x-hns-security-path"@
                    ||| low == "x-hns-tls-policy"@
                }
            },
        ),
{
    let names = connection_names(headers);
    let keep = |h: HeaderView| {
        let low = text::lower(h.name);
        &&& low != "connection"@
        &&& low != "alt-svc"@
        &&& low != "content-length"@
        &&& low != "keep-alive"@
        &&& low != "te"@
        &&& low != "trailer"@
        &&& low != "transfer-encoding"@
        &&& low != "upgrade"@
        &&& !"proxy-"@.is_prefix_of(low) && !"x-hns-"@.is_prefix_of(low)
        &&& !is_listed(headers, low)
    };
    let internal = |h: HeaderView| {
        let low = text::lower(h.name);
        &&& !is_listed(headers, low)
        &&& {
            ||| low == "x-hns-doh-fallback"@
            ||| low == "x-hns-resolution-trace"@
            ||| low == "x-hns-resolver-mode"@
            ||| low == "x-hns-resolver-policy"@
            ||| low == "x-hns-security-path"@
            ||| low == "x-hns-tls-policy"@
        }
    };
    assert forall|h: HeaderView| keep(h) == #[trigger] is_delivered(h, names) by {
        lemma_managed(text::lower(h.name));
        lemma_listed(headers, text::lower(h.name));
    }
    assert forall|h: HeaderView| internal(h) == #[trigger] is_metadata(h, names) by {
        lemma_managed(text::lower(h.name));
        lemma_listed(headers, text::lower(h.name));
    }
    lemma_delivered_is_filter(headers, names, keep);
    lemma_metadata_is_filter(headers, names, internal);
}

/// A response is taken exactly where it has at most 256 fields, which take at most 64 KiB
/// on the wire; where every name is a token, every value is free of control characters
/// but tabs, and every Connection field lists tokens; and where no two trusted internal
/// fields have the same name. Otherwise it is refused, as too large or for its fields.
pub proof fn responses_are_taken_exactly(headers: Seq<HeaderView>)
    ensures
        sanitized_response(headers) is Ok <==> {
            let trusted = headers.filter(
                |h: HeaderView| {
                    let low = text::lower(h.name);
                    &&& !is_listed(headers, low)
                    &&& {
                        ||| low == "x-hns-doh-fallback"@
                        ||| low == "x-hns-resolution-trace"@
                        ||| low == "x-hns-resolver-mode"@
                        ||| low == "x-hns-resolver-policy"@
                        ||| low == "x-hns-security-path"@
                        ||| low == "x-hns-tls-policy"@
                    }
                },
            );
            &&& headers.len() <= 256
            &&& wire_size(headers) <= 65536
            &&& forall|i: int|
                0 <= i < headers.len() ==> {
                    &&& forward::is_token_text((#[trigger] headers[i]).name)
                    &&& forall|k: int|
                        0 <= k < headers[i].value.len() ==> !text::is_control(
                            #[trigger] headers[i].value[k],
                        ) || headers[i].value[k] == '\t'
                    &&& text::lower(headers[i].name) == "connection"@ ==> forward::all_tokens(
                        forward::members(headers[i].value),
                    )
                }
            &&& forall|i: int, j: int|
                0 <= i < j < trusted.len() ==> text::lower((#[trigger] trusted[i]).name)
                    != text::lower((#[trigger] trusted[j]).name)
        },
        sanitized_response(headers) matches Err(e) ==> e == ResponseError::HeadersTooLarge || e
            == ResponseError::InvalidHeader,
        headers.len() > 256 ==> sanitized_response(headers) == Err::<SanitizedView, ResponseError>(
            ResponseError::HeadersTooLarge,
        ),
{
    lemma_lower_connection();
    let names = connection_names(headers);
    let internal = |h: HeaderView| {
        let low = text::lower(h.name);
        &&& !is_listed(headers, low)
        &&& {
            ||| low == "x-hns-doh-fallback"@
            ||| low == "x-hns-resolution-trace"@
            ||| low == "x-hns-resolver-mode"@
            ||| low == "x-hns-resolver-policy"@
            ||| low == "x-hns-security-path"@
            ||| low == "x-hns-tls-policy"@
        }
    };
    assert forall|h: HeaderView| internal(h) == #[trigger] is_metadata(h, names) by {
        lemma_managed(text::lower(h.name));
        lemma_listed(headers, text::lower(h.name));
    }
    lemma_metadata_is_filter(headers, names, internal);
    let fields_are_valid = forall|i: int|
        0 <= i < headers.len() ==> {
            &&& forward::is_token_text((#[trigger] headers[i]).name)
            &&& forall|k: int|
                0 <= k < headers[i].value.len() ==> !text::is_control(
                    #[trigger] headers[i].value[k],
                ) || headers[i].value[k] == '\t'
            &&& text::lower(headers[i].name) == "connection"@ ==> forward::all_tokens(
                forward::members(headers[i].value),
            )
        };
    assert(fields_are_valid == all_valid_fields(headers)) by {
        if all_valid_fields(headers) {
            assert forall|i: int| 0 <= i < headers.len() implies is_valid_field(
                #[trigger] headers[i],
            ) by {}
        }
        if fields_are_valid {
            assert forall|i: int| 0 <= i < headers.len() implies is_valid_field(
                #[trigger] headers[i],
            ) by {}
        }
    }
}

/// What the fields of a response take on the wire is what their lines take.
pub proof fn sizes_are_those_of_the_lines(headers: Seq<HeaderView>, h: HeaderView)
    ensures
        fields_text(Seq::empty()) == Seq::<char>::empty(),
        fields_text(headers.push(h)) == fields_text(headers) + h.name + ": "@ + h.value + "\r\n"@,
        wire_size(headers) == vstd::utf8::encode_utf8(fields_text(headers)).len(),
    decreases headers.len(),
{
    assert(headers.push(h).drop_last() =~= headers);
    assert(fields_text(headers) + field_text(h) =~= fields_text(headers) + h.name + ": "@ + h.value
        + "\r\n"@);
    if headers.len() > 0 {
        let rest = headers.drop_last();
        let last = headers.last();
        sizes_are_those_of_the_lines(rest, last);
        let a = fields_text(rest);
        lemma_encode_append(a, field_text(last));
        lemma_encode_append(last.name + ": "@ + last.value, "\r\n"@);
        lemma_encode_append(last.name + ": "@, last.value);
        lemma_encode_append(last.name, ": "@);
        reveal_strlit(": ");
        reveal_strlit("\r\n");
        vstd::utf8::is_ascii_chars_encode_utf8(": "@);
        vstd::utf8::is_ascii_chars_encode_utf8("\r\n"@);
    } else {
        assert(fields_text(headers) =~= Seq::empty());
        vstd::utf8::is_ascii_chars_encode_utf8(Seq::empty());
    }
}

/// A final head is its status line, the delivered fields, and the proxy's own word on the
/// connection and, where the status has a body, on its length; then an empty line. It is
/// made exactly where the status is final, the reason is visible ASCII with blanks, a
/// status without a body has none, and the head takes at most 64 KiB. A body follows
/// unless the request was HEAD or the status has none.
pub proof fn final_heads_are_made_exactly(
    method: Seq<char>,
    status: u16,
    reason: Seq<char>,
    fields: Seq<HeaderView>,
    body_len: u64,
)
    ensures
        ({
            let bodyless = status == 204 || status == 205 || status == 304;
            let length = if bodyless {
                Seq::empty()
            } else {
                "Content-Length: "@ + text::decimal(body_len as nat) + "\r\n"@
            };
            let head = "HTTP/1.1 "@ + text::decimal(status as nat) + " "@ + reason + "\r\n"@
                + fields_text(fields) + "Connection: close\r\n"@ + length + "\r\n"@;
            let bytes = vstd::utf8::encode_utf8(head);
            let is_visible = forall|i: int|
                0 <= i < reason.len() ==> 0x20 <= (#[trigger] reason[i] as u32) <= 0x7e;
            &&& encoded_response(method, status, reason, fields, body_len) is Ok <==> {
                &&& 200 <= status <= 599
                &&& reason.len() > 0 && is_visible
                &&& vstd::utf8::encode_utf8(reason).len() <= 65536
                &&& bodyless ==> body_len == 0
                &&& bytes.len() <= 65536
            }
            &&& encoded_response(method, status, reason, fields, body_len) matches Ok(e) ==> {
                &&& e.bytes == bytes
                &&& e.body_allowed == (!bodyless && text::lower(method) != "head"@)
            }
            &&& !(200 <= status <= 599) ==> encoded_response(
                method,
                status,
                reason,
                fields,
                body_len,
            ) == Err::<EncodedView, ResponseError>(ResponseError::InvalidStatus)
        }),
{
    reveal_strlit("HEAD");
    reveal_strlit("head");
    assert(text::lower("HEAD"@) =~= "head"@);
    let length = if forbids_body(status) {
        Seq::empty()
    } else {
        "Content-Length: "@ + text::decimal(body_len as nat) + "\r\n"@
    };
    assert("HTTP/1.1 "@ + text::decimal(status as nat) + " "@ + reason + "\r\n"@ + fields_text(
        fields,
    ) + "Connection: close\r\n"@ + length + "\r\n"@ =~= final_head_text(
        status,
        reason,
        fields,
        body_len,
    ));
}

/// A switching head is its status line, the fields that may be delivered, and the two
/// fields that signal the switch; then an empty line. It is made only with status 101, for
/// fields that are valid and that name the protocol, within 64 KiB, and has no body.
pub proof fn switching_heads_are_made_exactly(
    status: u16,
    reason: Seq<char>,
    headers: Seq<HeaderView>,
)
    ensures
        ({
            let head = "HTTP/1.1 "@ + text::decimal(status as nat) + " "@ + reason + "\r\n"@
                + fields_text(
                headers.filter(
                    |h: HeaderView| {
                        let low = text::lower(h.name);
                        &&& low != "connection"@
                        &&& low != "alt-svc"@
                        &&& low != "content-length"@
                        &&& low != "keep-alive"@
                        &&& low != "te"@
                        &&& low != "trailer"@
                        &&& low != "transfer-encoding"@
                        &&& low != "upgrade"@
                        &&& !"proxy-"@.is_prefix_of(low) && !"x-hns-"@.is_prefix_of(low)
                        &&& !is_listed(headers, low)
                    },
                ),
            ) + "Connection: Upgrade\r\nUpgrade: websocket\r\n\r\n"@;
            let bytes = vstd::utf8::encode_utf8(head);
            let is_visible = forall|i: int|
                0 <= i < reason.len() ==> 0x20 <= (#[trigger] reason[i] as u32) <= 0x7e;
            &&& encoded_upgrade(status, reason, headers) is Ok <==> {
                &&& status == 101
                &&& reason.len() > 0 && is_visible
                &&& vstd::utf8::encode_utf8(reason).len() <= 65536
                &&& validated(headers) is Ok
                &&& forward::is_websocket_upgrade(headers)
                &&& bytes.len() <= 65536
            }
            &&& encoded_upgrade(status, reason, headers) matches Ok(e) ==> {
                &&& e.bytes == bytes
                &&& !e.body_allowed
            }
        }),
{
    let names = connection_names(headers);
    let keep = |h: HeaderView| {
        let low = text::lower(h.name);
        &&& low != "connection"@
        &&& low != "alt-svc"@
        &&& low != "content-length"@
        &&& low != "keep-alive"@
        &&& low != "te"@
        &&& low != "trailer"@
        &&& low != "transfer-encoding"@
        &&& low != "upgrade"@
        &&& !"proxy-"@.is_prefix_of(low) && !"x-hns-"@.is_prefix_of(low)
        &&& !is_listed(headers, low)
    };
    assert forall|h: HeaderView| keep(h) == #[trigger] is_delivered(h, names) by {
        lemma_managed(text::lower(h.name));
        lemma_listed(headers, text::lower(h.name));
    }
    lemma_delivered_is_filter(headers, names, keep);
    let fields = delivered(headers, names);
    assert("HTTP/1.1 "@ + text::decimal(status as nat) + " "@ + reason + "\r\n"@ + fields_text(
        fields,
    ) + "Connection: Upgrade\r\nUpgrade: websocket\r\n\r\n"@ =~= upgrade_head_text(
        status,
        reason,
        fields,
    ));
}

/// A head that is encoded is the one that is meant, and so is a fault.
pub proof fn encoded_heads_agree(
    r: Result<EncodedResponseHead, ResponseError>,
    v: Result<EncodedView, ResponseError>,
)
    ensures
        same_encoded(r, v) <==> {
            &&& r is Ok <==> v is Ok
            &&& r is Ok ==> r->Ok_0@ == v->Ok_0
            &&& r is Err ==> r->Err_0 == v->Err_0
        },
{
}

/// Of several fields of a name, in any case of letters, the last is told.
pub proof fn the_last_value_is_told(fields: Seq<HeaderView>, name: Seq<char>)
    ensures
        ({
            let named = fields.filter(|h: HeaderView| text::lower(h.name) == text::lower(name));
            &&& last_value(fields, name) is Some <==> named.len() > 0
            &&& named.len() > 0 ==> last_value(fields, name) == Some(named.last().value)
        }),
    decreases fields.len(),
{
    reveal(Seq::filter);
    let same = |h: HeaderView| text::lower(h.name) == text::lower(name);
    if fields.len() > 0 {
        the_last_value_is_told(fields.drop_last(), name);
        let before = fields.drop_last().filter(same);
        if same(fields.last()) {
            assert(fields.filter(same) =~= before.push(fields.last()));
        } else {
            assert(fields.filter(same) =~= before);
        }
    }
}

/// The fields and the head of a response are those that are meant.
pub proof fn responses_are_handed_on(
    headers: &[(String, String)],
    fields: Result<SanitizedResponseHeaders, ResponseError>,
    method: &str,
    status: u16,
    reason: &str,
    kept: &SanitizedResponseHeaders,
    body_len: u64,
    head: Result<EncodedResponseHead, ResponseError>,
    switching: Result<EncodedResponseHead, ResponseError>,
    name: &str,
    managed: bool,
)
    requires
        call_ensures(sanitize_response_headers, (headers,), fields),
        call_ensures(encode_response_head, (method, status, reason, kept, body_len), head),
        call_ensures(encode_upgrade_response_head, (status, reason, headers), switching),
        call_ensures(is_proxy_managed_response_header, (name,), managed),
    ensures
        ({
            let meant = sanitized_response(pair_views(headers@));
            &&& fields is Ok <==> meant is Ok
            &&& fields is Ok ==> fields->Ok_0@ == meant->Ok_0
            &&& fields is Err ==> fields->Err_0 == meant->Err_0
        }),
        same_encoded(head, encoded_response(method@, status, reason@, kept@.forwarded, body_len)),
        same_encoded(switching, encoded_upgrade(status, reason@, pair_views(headers@))),
        managed == is_managed_name(name@),
{
}

/// Each fault is told in its own words.
pub proof fn faults_of_responses_have_their_words(e: ResponseError)
    ensures
        response_error_text(e) == (match e {
            ResponseError::InvalidStatus => "invalid HTTP response status"@,
            ResponseError::InvalidReason => "invalid HTTP response reason"@,
            ResponseError::InvalidHeader => "invalid HTTP response header"@,
            ResponseError::HeadersTooLarge => "HTTP response headers exceed proxy limits"@,
            ResponseError::BodyNotAllowed => "HTTP response status does not permit a message body"@,
        }),
{
}

} // verus!

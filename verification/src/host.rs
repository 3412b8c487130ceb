//! Canonical host names and the immutable scope of a proxy.

use crate::addr;
use crate::dns;
use crate::event;
use crate::text;
use vstd::prelude::*;

verus! {

/// A canonical ASCII host name; never an address.
#[derive(Clone, PartialEq, Eq, PartialOrd, Ord, Hash)]
pub struct NormalizedHost {
    ascii: String,
}

impl View for NormalizedHost {
    type V = Seq<char>;

    closed spec fn view(&self) -> Seq<char> {
        self.ascii@
    }
}

#[derive(Clone, Copy, Debug, PartialEq, Eq, Structural)]
pub enum HostNormalizationError {
    Empty,
    SurroundingWhitespace,
    ForbiddenCharacter,
    InvalidIdna,
    InvalidDnsName,
    IpLiteral,
}

#[derive(Clone, Copy, Debug, PartialEq, Eq, Structural)]
pub enum HostScopeError {
    InvalidHost(HostNormalizationError),
    NotHns,
    OutOfScope,
}

/// The namespace in which the resolver places a name.
#[derive(Clone, Copy, Debug, PartialEq, Eq, Structural)]
pub enum NameClass {
    Hns,
    Icann,
}

pub open spec fn host_error_text(e: HostNormalizationError) -> Seq<char> {
    match e {
        HostNormalizationError::Empty => "host is empty"@,
        HostNormalizationError::SurroundingWhitespace => "host contains surrounding whitespace"@,
        HostNormalizationError::ForbiddenCharacter =>
            "host contains a forbidden authority character"@,
        HostNormalizationError::InvalidIdna => "host is not valid strict IDNA"@,
        HostNormalizationError::InvalidDnsName => "host violates DNS name length or label rules"@,
        HostNormalizationError::IpLiteral => "IP literals are outside the HNS proxy boundary"@,
    }
}

impl HostNormalizationError {
    /// What went wrong, in words.
    pub fn message(&self) -> (r: &'static str)
        ensures
            r@ == host_error_text(*self),
    {
        match self {
            HostNormalizationError::Empty => "host is empty",
            HostNormalizationError::SurroundingWhitespace => "host contains surrounding whitespace",
            HostNormalizationError::ForbiddenCharacter =>
                "host contains a forbidden authority character",
            HostNormalizationError::InvalidIdna => "host is not valid strict IDNA",
            HostNormalizationError::InvalidDnsName =>
                "host violates DNS name length or label rules",
            HostNormalizationError::IpLiteral => "IP literals are outside the HNS proxy boundary",
        }
    }
}

impl HostScopeError {
    /// What went wrong, in words.
    pub fn message(&self) -> (r: &'static str)
        ensures
            r@ == (match *self {
                HostScopeError::InvalidHost(e) => host_error_text(e),
                HostScopeError::NotHns => "host is not classified in the HNS namespace"@,
                HostScopeError::OutOfScope => "host is outside the immutable HNS proxy scope"@,
            }),
    {
        match self {
            HostScopeError::InvalidHost(e) => e.message(),
            HostScopeError::NotHns => "host is not classified in the HNS namespace",
            HostScopeError::OutOfScope => "host is outside the immutable HNS proxy scope",
        }
    }
}

// ---------------------------------------------------------------------
// Normalization
// ---------------------------------------------------------------------

/// Characters that separate a host from the rest of an authority or URL, and
/// whatever is not visible.
pub open spec fn is_forbidden(c: char) -> bool {
    ||| text::is_unicode_control(c)
    ||| text::is_whitespace(c)
    ||| c == '/'
    ||| c == ':'
    ||| c == '?'
    ||| c == '#'
    ||| c == '@'
    ||| c == '['
    ||| c == ']'
    ||| c == '\\'
    ||| c == '<'
    ||| c == '>'
    ||| c == '"'
}

pub open spec fn has_forbidden(s: Seq<char>) -> bool {
    exists|i: int| 0 <= i < s.len() && is_forbidden(#[trigger] s[i])
}

/// The characters that IDNA treats as label separators.
pub open spec fn is_dot(c: char) -> bool {
    c == '.' || c as u32 == 0x3002 || c as u32 == 0xff0e || c as u32 == 0xff61
}

pub open spec fn without_terminal_dot(s: Seq<char>) -> Seq<char> {
    if s.len() > 0 && is_dot(s.last()) {
        s.drop_last()
    } else {
        s
    }
}

pub open spec fn is_octal_digit(c: char) -> bool {
    '0' <= c <= '7'
}

pub open spec fn all_octal_digits(s: Seq<char>) -> bool {
    forall|i: int| 0 <= i < s.len() ==> is_octal_digit(#[trigger] s[i])
}

/// A number as the parts of historic IPv4 notation write it: hexadecimal,
/// octal or decimal.
pub open spec fn is_legacy_number(label: Seq<char>) -> bool {
    if "0x"@.is_prefix_of(label) || "0X"@.is_prefix_of(label) {
        label.len() > 2 && text::all_hex_digits(label.skip(2))
    } else if label.len() > 1 && label[0] == '0' {
        all_octal_digits(label)
    } else {
        label.len() > 0 && text::all_digits(label)
    }
}

pub open spec fn is_legacy_ipv4(host: Seq<char>) -> bool {
    let labels = text::split(host, '.');
    1 <= labels.len() <= 4 && forall|i: int|
        0 <= i < labels.len() ==> is_legacy_number(#[trigger] labels[i])
}

/// The canonical host for an ASCII form: a lower-case DNS name that no resolver
/// could read as an address.
pub open spec fn accepted_ascii(ascii: Seq<char>) -> Result<Seq<char>, HostNormalizationError> {
    let low = text::lower(ascii);
    if !dns::is_dns_name(low) {
        Err(HostNormalizationError::InvalidDnsName)
    } else if addr::ip_of(low) is Some || is_legacy_ipv4(low) {
        Err(HostNormalizationError::IpLiteral)
    } else {
        Ok(low)
    }
}

/// What is left to convert once the input is known to be a bare host.
pub open spec fn bare_host(input: Seq<char>) -> Result<Seq<char>, HostNormalizationError> {
    let bare = without_terminal_dot(input);
    if input.len() == 0 {
        Err(HostNormalizationError::Empty)
    } else if text::trim(input) != input {
        Err(HostNormalizationError::SurroundingWhitespace)
    } else if has_forbidden(input) {
        Err(HostNormalizationError::ForbiddenCharacter)
    } else if bare.len() == 0 || is_dot(bare.last()) {
        Err(HostNormalizationError::InvalidDnsName)
    } else {
        Ok(bare)
    }
}

/// The canonical host that the input denotes.
pub open spec fn normalized(input: Seq<char>) -> Result<Seq<char>, HostNormalizationError> {
    match bare_host(input) {
        Err(e) => Err(e),
        Ok(bare) => match dns::idna_ascii(vstd::utf8::encode_utf8(bare)) {
            None => Err(HostNormalizationError::InvalidIdna),
            Some(ascii) => accepted_ascii(ascii),
        },
    }
}

pub open spec fn same_host(
    r: Result<NormalizedHost, HostNormalizationError>,
    v: Result<Seq<char>, HostNormalizationError>,
) -> bool {
    match (r, v) {
        (Ok(h), Ok(w)) => h@ == w,
        (Err(e), Err(f)) => e == f,
        _ => false,
    }
}

fn is_forbidden_input_character(c: char) -> (r: bool)
    ensures
        r == is_forbidden(c),
{
    text::char_is_unicode_control(c) || text::char_is_whitespace(c) || c == '/' || c == ':' || c
        == '?' || c == '#' || c == '@' || c == '[' || c == ']' || c == '\\' || c == '<' || c == '>'
        || c == '"'
}

fn is_idna_dot(c: char) -> (r: bool)
    ensures
        r == is_dot(c),
{
    c == '.' || c as u32 == 0x3002 || c as u32 == 0xff0e || c as u32 == 0xff61
}

fn contains_forbidden(s: &[char]) -> (r: bool)
    ensures
        r == has_forbidden(s@),
{
    let mut i: usize = 0;
    while i < s.len()
        invariant
            i <= s@.len(),
            forall|j: int| 0 <= j < i ==> !is_forbidden(#[trigger] s@[j]),
        decreases s.len() - i,
    {
        if is_forbidden_input_character(s[i]) {
            return true;
        }
        i += 1;
    }
    false
}

fn are_octal_digits(s: &[char]) -> (r: bool)
    ensures
        r == all_octal_digits(s@),
{
    let mut i: usize = 0;
    while i < s.len()
        invariant
            i <= s@.len(),
            forall|j: int| 0 <= j < i ==> is_octal_digit(#[trigger] s@[j]),
        decreases s.len() - i,
    {
        if s[i] < '0' || s[i] > '7' {
            return false;
        }
        i += 1;
    }
    true
}

fn is_ipv4_number(label: &[char]) -> (r: bool)
    ensures
        r == is_legacy_number(label@),
{
    proof {
        reveal_strlit("0x");
        reveal_strlit("0X");
    }
    if text::starts_with(label, "0x") || text::starts_with(label, "0X") {
        let hex = text::chars_between(label, 2, label.len());
        assert(hex@ == label@.skip(2));
        return hex.len() > 0 && text::are_hex_digits(hex.as_slice());
    }
    if label.len() > 1 && label[0] == '0' {
        return are_octal_digits(label);
    }
    label.len() > 0 && text::are_digits(label)
}

fn looks_like_legacy_ipv4(host: &[char]) -> (r: bool)
    ensures
        r == is_legacy_ipv4(host@),
{
    let labels = text::split_chars(host, '.');
    let ghost ls = text::split(host@, '.');
    assert(labels@.map_values(|p: Vec<char>| p@).len() == labels@.len());
    if labels.len() < 1 || labels.len() > 4 {
        return false;
    }
    let mut i: usize = 0;
    while i < labels.len()
        invariant
            i <= labels@.len() == ls.len(),
            ls == text::split(host@, '.'),
            labels@.map_values(|p: Vec<char>| p@) == ls,
            forall|j: int| 0 <= j < i ==> is_legacy_number(#[trigger] ls[j]),
        decreases labels.len() - i,
    {
        assert(labels@.map_values(|p: Vec<char>| p@)[i as int] == labels@[i as int]@);
        if !is_ipv4_number(labels[i].as_slice()) {
            assert(!is_legacy_number(ls[i as int]));
            return false;
        }
        i += 1;
    }
    true
}

/// Accepts the ASCII form of a host.
pub fn accept_ascii_host(ascii: &str) -> (r: Result<NormalizedHost, HostNormalizationError>)
    ensures
        same_host(r, accepted_ascii(ascii@)),
{
    let chars = text::to_chars(ascii);
    let low = text::lower_chars(chars.as_slice());
    if !dns::validate_ascii_dns_name(low.as_slice()) {
        return Err(HostNormalizationError::InvalidDnsName);
    }
    if addr::parse_ip(low.as_slice()).is_some() || looks_like_legacy_ipv4(low.as_slice()) {
        return Err(HostNormalizationError::IpLiteral);
    }
    Ok(NormalizedHost { ascii: text::from_chars(low.as_slice()) })
}

/// A character of a canonical label.
pub open spec fn is_canonical_char(c: char) -> bool {
    'a' <= c <= 'z' || '0' <= c <= '9' || c == '-'
}

/// One to sixty-three lower-case letters, digits and inner hyphens.
pub open spec fn is_canonical_label(label: Seq<char>) -> bool {
    &&& 1 <= label.len() <= 63
    &&& label[0] != '-'
    &&& label.last() != '-'
    &&& forall|i: int| 0 <= i < label.len() ==> is_canonical_char(#[trigger] label[i])
}

/// At most 253 characters in dot-separated canonical labels, which are no address.
pub open spec fn is_canonical_host(host: Seq<char>) -> bool {
    let labels = text::split(host, '.');
    &&& 1 <= host.len() <= 253
    &&& forall|i: int| 0 <= i < labels.len() ==> is_canonical_label(#[trigger] labels[i])
    &&& host.last() != '.'
    &&& addr::ip_of(host) is None
    &&& !is_legacy_ipv4(host)
}

proof fn lemma_canonical_char(c: char)
    requires
        dns::is_label_char(c),
        text::lower_char(c) == c,
    ensures
        is_canonical_char(c),
{
}

/// What is accepted has the shape of a canonical host, is a bare host, and is accepted
/// again.
proof fn lemma_accepted(ascii: Seq<char>)
    requires
        accepted_ascii(ascii) is Ok,
    ensures
        ({
            let host = text::lower(ascii);
            &&& accepted_ascii(ascii) == Ok::<Seq<char>, HostNormalizationError>(host)
            &&& accepted_ascii(host) == Ok::<Seq<char>, HostNormalizationError>(host)
            &&& bare_host(host) == Ok::<Seq<char>, HostNormalizationError>(host)
            &&& is_canonical_host(host)
            &&& vstd::utf8::is_ascii_chars(host)
        }),
{
    let host = text::lower(ascii);
    text::lower_is_idempotent(ascii);
    dns::lemma_name_chars(host);
    let labels = text::split(host, '.');
    text::lemma_split_nonempty(host, '.');
    let p = |c: char| text::lower_char(c) == c;
    assert forall|i: int| 0 <= i < host.len() implies p(#[trigger] host[i]) by {
        assert(text::lower(host)[i] == host[i]);
    }
    text::pieces_inherit(host, '.', p);
    assert forall|i: int| 0 <= i < labels.len() implies is_canonical_label(
        #[trigger] labels[i],
    ) by {
        let label = labels[i];
        assert(dns::is_label(label));
        assert forall|j: int| 0 <= j < label.len() implies is_canonical_char(
            #[trigger] label[j],
        ) by {
            assert(p(labels[i][j]));
            lemma_canonical_char(label[j]);
        }
    }
    assert(host.last() != '.') by {
        if host.last() == '.' {
            text::lemma_split_nonempty(host.drop_last(), '.');
            assert(dns::is_label(labels[labels.len() - 1]));
        }
    }
    assert forall|i: int| 0 <= i < host.len() implies !is_forbidden(#[trigger] host[i]) by {
        assert(host[i] == '.' || dns::is_label_char(host[i]));
    }
    assert(!is_forbidden(host[0]) && !is_forbidden(host[host.len() - 1]));
    assert(text::trim(host) == host);
    assert(host.last() == '.' || dns::is_label_char(host[host.len() - 1]));
    assert forall|i: int| 0 <= i < host.len() implies (#[trigger] host[i] as u32) < 0x80 by {
        assert(host[i] == '.' || dns::is_label_char(host[i]));
    }
}

impl NormalizedHost {
    /// The canonical host that the input denotes. That of an input in ASCII is the input in
    /// lower case, without a terminal dot, and denotes itself.
    pub fn parse(input: &str) -> (r: Result<Self, HostNormalizationError>)
        ensures
            same_host(r, normalized(input@)),
            r matches Ok(h) ==> is_canonical_host(h@),
            vstd::utf8::is_ascii_chars(input@) ==> (r matches Ok(h) ==> h@ == text::lower(
                without_terminal_dot(input@),
            ) && normalized(h@) == Ok::<Seq<char>, HostNormalizationError>(h@)),
    {
        let mut chars = text::to_chars(input);
        if chars.len() == 0 {
            return Err(HostNormalizationError::Empty);
        }
        let trimmed = text::trim_chars(chars.as_slice());
        if !text::same_chars(trimmed.as_slice(), chars.as_slice()) {
            return Err(HostNormalizationError::SurroundingWhitespace);
        }
        if contains_forbidden(chars.as_slice()) {
            return Err(HostNormalizationError::ForbiddenCharacter);
        }
        if is_idna_dot(chars[chars.len() - 1]) {
            let _ = chars.pop();
        }
        assert(chars@ == without_terminal_dot(input@));
        if chars.len() == 0 || is_idna_dot(chars[chars.len() - 1]) {
            return Err(HostNormalizationError::InvalidDnsName);
        }
        let bare = text::from_chars(chars.as_slice());
        match dns::domain_to_ascii(bare.as_str().as_bytes()) {
            None => Err(HostNormalizationError::InvalidIdna),
            Some(ascii) => {
                proof {
                    if accepted_ascii(ascii@) is Ok {
                        lemma_accepted(ascii@);
                        if vstd::utf8::is_ascii_chars(input@) {
                            assert(vstd::utf8::is_ascii_chars(bare@));
                            vstd::utf8::is_ascii_chars_encode_utf8(bare@);
                            assert(text::ascii_chars(vstd::utf8::encode_utf8(bare@)) =~= bare@);
                            text::lower_is_idempotent(bare@);
                        }
                    }
                }
                accept_ascii_host(ascii.as_str())
            },
        }
    }

    pub fn as_str(&self) -> (r: &str)
        ensures
            r@ == self@,
    {
        self.ascii.as_str()
    }

    pub fn same(&self, other: &NormalizedHost) -> (r: bool)
        ensures
            r == (self@ == other@),
    {
        text::same_text(self.ascii.as_str(), other.ascii.as_str())
    }

    pub(crate) fn copy(&self) -> (r: Self)
        ensures
            r@ == self@,
    {
        NormalizedHost { ascii: self.ascii.clone() }
    }

    /// A diagnostic description that withholds the name.
    pub fn describe(&self) -> (r: &'static str)
        ensures
            r@ == "NormalizedHost([REDACTED])"@,
    {
        "NormalizedHost([REDACTED])"
    }
}

// ---------------------------------------------------------------------
// Scope
// ---------------------------------------------------------------------

/// The part of the namespace that one proxy serves: a root and its subdomains.
#[derive(Clone, PartialEq, Eq)]
pub struct HostScope {
    root: NormalizedHost,
}

impl View for HostScope {
    type V = Seq<char>;

    closed spec fn view(&self) -> Seq<char> {
        self.root@
    }
}

/// The root itself, or a name that ends in a dot and the root.
pub open spec fn is_within(candidate: Seq<char>, root: Seq<char>) -> bool {
    candidate == root || (root.len() < candidate.len() && candidate.skip(
        candidate.len() - root.len(),
    ) == root && candidate[candidate.len() - root.len() - 1] == '.')
}

/// Whether a scope admits a canonical host of the given class.
pub open spec fn scope_decision(host: Seq<char>, class: NameClass, root: Seq<char>) -> Result<
    Seq<char>,
    HostScopeError,
> {
    if class != NameClass::Hns {
        Err(HostScopeError::NotHns)
    } else if !is_within(host, root) {
        Err(HostScopeError::OutOfScope)
    } else {
        Ok(host)
    }
}

pub fn is_equal_or_subdomain(candidate: &str, root: &str) -> (r: bool)
    ensures
        r == is_within(candidate@, root@),
{
    let c = text::to_chars(candidate);
    let k = text::to_chars(root);
    if text::same_chars(c.as_slice(), k.as_slice()) {
        return true;
    }
    if k.len() >= c.len() {
        return false;
    }
    let at: usize = c.len() - k.len();
    let tail = text::chars_between(c.as_slice(), at, c.len());
    assert(tail@ == c@.skip(at as int));
    text::same_chars(tail.as_slice(), k.as_slice()) && c[at - 1] == '.'
}

impl HostScope {
    /// The scope of a root; `class` is the resolver's class of its canonical
    /// name.
    pub fn new(root: &str, class: NameClass) -> (r: Result<Self, HostScopeError>)
        ensures
            match (r, normalized(root@)) {
                (Ok(s), Ok(h)) => s@ == h && class == NameClass::Hns,
                (Err(e), Ok(_)) => e == HostScopeError::NotHns && class != NameClass::Hns,
                (Err(e), Err(f)) => e == HostScopeError::InvalidHost(f),
                _ => false,
            },
    {
        match NormalizedHost::parse(root) {
            Err(e) => Err(HostScopeError::InvalidHost(e)),
            Ok(root) => match class {
                NameClass::Hns => Ok(HostScope { root }),
                NameClass::Icann => Err(HostScopeError::NotHns),
            },
        }
    }

    pub fn root(&self) -> (r: &NormalizedHost)
        ensures
            r@ == self@,
    {
        &self.root
    }

    /// Whether the scope admits the candidate; `class` is the resolver's class
    /// of its canonical name.
    pub fn allows(&self, candidate: &str, class: NameClass) -> (r: bool)
        ensures
            r == (normalized(candidate@) is Ok && class == NameClass::Hns && is_within(
                normalized(candidate@)->Ok_0,
                self@,
            )),
    {
        self.authorize(candidate, class).is_ok()
    }

    pub fn allows_normalized(&self, candidate: &NormalizedHost, class: NameClass) -> (r: bool)
        ensures
            r == (class == NameClass::Hns && is_within(candidate@, self@)),
    {
        class == NameClass::Hns && is_equal_or_subdomain(candidate.as_str(), self.root.as_str())
    }

    /// The canonical host, where it is an HNS name inside this scope.
    pub fn authorize(&self, candidate: &str, class: NameClass) -> (r: Result<
        NormalizedHost,
        HostScopeError,
    >)
        ensures
            match normalized(candidate@) {
                Err(f) => r == Err::<NormalizedHost, HostScopeError>(
                    HostScopeError::InvalidHost(f),
                ),
                Ok(h) => match (r, scope_decision(h, class, self@)) {
                    (Ok(a), Ok(v)) => a@ == v,
                    (Err(e), Err(f)) => e == f,
                    _ => false,
                },
            },
    {
        match NormalizedHost::parse(candidate) {
            Err(e) => Err(HostScopeError::InvalidHost(e)),
            Ok(host) => self.authorize_normalized(host, class),
        }
    }

    /// The host, where it is an HNS name inside this scope.
    pub fn authorize_normalized(&self, host: NormalizedHost, class: NameClass) -> (r: Result<
        NormalizedHost,
        HostScopeError,
    >)
        ensures
            match (r, scope_decision(host@, class, self@)) {
                (Ok(a), Ok(v)) => a@ == v,
                (Err(e), Err(f)) => e == f,
                _ => false,
            },
    {
        if class != NameClass::Hns {
            return Err(HostScopeError::NotHns);
        }
        if !is_equal_or_subdomain(host.as_str(), self.root.as_str()) {
            return Err(HostScopeError::OutOfScope);
        }
        Ok(host)
    }

    /// A diagnostic description that withholds the root.
    pub fn describe(&self) -> (r: &'static str)
        ensures
            r@ == "HostScope { root: NormalizedHost([REDACTED]) }"@,
    {
        "HostScope { root: NormalizedHost([REDACTED]) }"
    }
}

// ---------------------------------------------------------------------
// Laws
// ---------------------------------------------------------------------

/// A name is within a root exactly where the root's labels are its last labels.
pub proof fn scopes_follow_label_boundaries(candidate: Seq<char>, root: Seq<char>)
    ensures
        is_within(candidate, root) <==> exists|front: Seq<Seq<char>>|
            text::split(candidate, '.') == #[trigger] (front + text::split(root, '.')),
{
    let c = text::split(candidate, '.');
    let k = text::split(root, '.');
    text::lemma_split_nonempty(candidate, '.');
    text::lemma_split_nonempty(root, '.');
    if is_within(candidate, root) {
        if candidate == root {
            assert(c == Seq::<Seq<char>>::empty() + k);
        } else {
            let at = candidate.len() - root.len();
            let front = candidate.take(at - 1);
            assert(candidate == front.push('.') + root);
            text::split_distributes(front, root, '.');
            assert(c == text::split(front, '.') + k);
        }
    }
    if exists|front: Seq<Seq<char>>| c == #[trigger] (front + k) {
        let front = choose|front: Seq<Seq<char>>| c == #[trigger] (front + k);
        text::joined_pieces_are_whole(candidate, '.');
        text::joined_pieces_are_whole(root, '.');
        if front.len() == 0 {
            assert(front + k == k);
        } else {
            lemma_join_concat(front, k);
            let head = text::join(front, '.');
            assert(candidate == head.push('.') + root);
            assert(candidate.skip(candidate.len() - root.len()) == root);
            assert(candidate[candidate.len() - root.len() - 1] == '.');
        }
    }
}

proof fn lemma_join_concat(a: Seq<Seq<char>>, b: Seq<Seq<char>>)
    requires
        a.len() > 0,
        b.len() > 0,
    ensures
        text::join(a + b, '.') == text::join(a, '.').push('.') + text::join(b, '.'),
    decreases b.len(),
{
    let s = a + b;
    assert(s.last() == b.last());
    if b.len() == 1 {
        assert(s.drop_last() == a);
    } else {
        assert(s.drop_last() == a + b.drop_last());
        lemma_join_concat(a, b.drop_last());
        assert(text::join(s, '.') == text::join(a, '.').push('.') + text::join(b, '.'));
    }
}

/// Every canonical host is a lower-case DNS name that is no address. It denotes itself
/// where the conversion to ASCII keeps it.
pub proof fn canonical_hosts_are_names(input: Seq<char>)
    requires
        normalized(input) is Ok,
    ensures
        is_canonical_host(normalized(input)->Ok_0),
        dns::idna_ascii(vstd::utf8::encode_utf8(normalized(input)->Ok_0)) == Some(
            normalized(input)->Ok_0,
        ) ==> normalized(normalized(input)->Ok_0) == normalized(input),
{
    let bare = bare_host(input)->Ok_0;
    lemma_accepted(dns::idna_ascii(vstd::utf8::encode_utf8(bare))->0);
}

/// Every canonical host can be observed, under its own name.
pub proof fn canonical_hosts_are_observable(input: Seq<char>)
    requires
        normalized(input) is Ok,
    ensures
        event::observed_host(normalized(input)->Ok_0) == Ok::<Seq<char>, event::ObservedHostError>(
            normalized(input)->Ok_0,
        ),
{
    let host = normalized(input)->Ok_0;
    let bare = bare_host(input)->Ok_0;
    let ascii = dns::idna_ascii(vstd::utf8::encode_utf8(bare))->0;
    assert(host == text::lower(ascii));
    text::lower_is_idempotent(ascii);
    dns::lemma_name_chars(host);
    assert forall|k: int| 0 <= k < host.len() implies (#[trigger] host[k] as u32) < 0x80 by {
        assert(host[k] == '.' || dns::is_label_char(host[k]));
    }
}

/// No host has a control, white space, or a mark that an authority or a page gives another
/// sense.
pub proof fn marks_are_forbidden_in_hosts(c: char)
    requires
        (c as u32) < 0x80,
    ensures
        is_forbidden(c) <==> c as u32 <= 0x20 || c as u32 == 0x7f || c as u32 == 0x22 || c as u32
            == 0x23 || c as u32 == 0x2f || c as u32 == 0x3a || c as u32 == 0x3c || c as u32 == 0x3e
            || c as u32 == 0x3f || c as u32 == 0x40 || 0x5b <= c as u32 <= 0x5d,
{
}

/// A host is normalized exactly where it is not empty, has no white space around it and no
/// forbidden mark in it, has at most one dot at its end and something before it, is taken
/// by IDNA, and comes to a name that is no address in any notation. It is refused for the
/// first of these that fails.
pub proof fn hosts_are_normalized_exactly(input: Seq<char>)
    ensures
        ({
            let dot = |c: char|
                c == '.' || c as u32 == 0x3002 || c as u32 == 0xff0e || c as u32 == 0xff61;
            let given = input.len() > 0;
            let tight = given && text::trim(input) == input;
            let clean = tight && forall|i: int| 0 <= i < input.len() ==> !is_forbidden(
                #[trigger] input[i],
            );
            let bare = if given && dot(input.last()) {
                input.take(input.len() - 1)
            } else {
                input
            };
            let named = clean && bare.len() > 0 && !dot(bare.last());
            let ascii = dns::idna_ascii(vstd::utf8::encode_utf8(bare));
            let low = text::lower(ascii->Some_0);
            let is_name = dns::is_dns_name(low);
            let is_address = addr::ipv4_of(low) is Some || addr::ipv6_of(low) is Some
                || is_legacy_ipv4(low);
            let r = normalized(input);
            let is = |e: HostNormalizationError| r == Err::<Seq<char>, HostNormalizationError>(e);
            &&& r is Ok <==> named && ascii is Some && is_name && !is_address
            &&& r is Ok ==> r->Ok_0 == low
            &&& !given ==> is(HostNormalizationError::Empty)
            &&& given && !tight ==> is(HostNormalizationError::SurroundingWhitespace)
            &&& tight && !clean ==> is(HostNormalizationError::ForbiddenCharacter)
            &&& clean && !named ==> is(HostNormalizationError::InvalidDnsName)
            &&& named && ascii is None ==> is(HostNormalizationError::InvalidIdna)
            &&& named && ascii is Some && !is_name ==> is(HostNormalizationError::InvalidDnsName)
            &&& named && ascii is Some && is_name && is_address ==> is(
                HostNormalizationError::IpLiteral,
            )
        }),
{
    if input.len() > 0 {
        assert(input.drop_last() =~= input.take(input.len() - 1));
    }
}

/// The old notations of an address have one to four numbers with dots between them: each
/// is decimal, octal where it begins with a zero, or hexadecimal where `0x` leads it.
pub proof fn old_addresses_are_numbers(host: Seq<char>, label: Seq<char>)
    ensures
        is_legacy_ipv4(host) <==> text::split(host, '.').len() <= 4 && forall|i: int|
            0 <= i < text::split(host, '.').len() ==> is_legacy_number(
                #[trigger] text::split(host, '.')[i],
            ),
        ({
            let hexadecimal = label.len() >= 2 && label[0] == '0' && (label[1] == 'x' || label[1]
                == 'X');
            let octal = !hexadecimal && label.len() > 1 && label[0] == '0';
            is_legacy_number(label) <==> (if hexadecimal {
                label.len() > 2 && forall|i: int|
                    2 <= i < label.len() ==> text::is_hex_digit(#[trigger] label[i])
            } else if octal {
                forall|i: int| 0 <= i < label.len() ==> '0' <= #[trigger] label[i] <= '7'
            } else {
                label.len() > 0 && forall|i: int|
                    0 <= i < label.len() ==> '0' <= #[trigger] label[i] <= '9'
            })
        }),
{
    text::lemma_split_nonempty(host, '.');
    reveal_strlit("0x");
    reveal_strlit("0X");
    let hexadecimal = label.len() >= 2 && label[0] == '0' && (label[1] == 'x' || label[1] == 'X');
    if label.len() >= 2 {
        assert("0x"@.is_prefix_of(label) <==> label[0] == '0' && label[1] == 'x') by {
            if label[0] == '0' && label[1] == 'x' {
                assert(label.subrange(0, 2) =~= "0x"@);
            }
            if "0x"@.is_prefix_of(label) {
                assert(label.subrange(0, 2)[0] == "0x"@[0] && label.subrange(0, 2)[1] == "0x"@[1]);
            }
        }
        assert("0X"@.is_prefix_of(label) <==> label[0] == '0' && label[1] == 'X') by {
            if label[0] == '0' && label[1] == 'X' {
                assert(label.subrange(0, 2) =~= "0X"@);
            }
            if "0X"@.is_prefix_of(label) {
                assert(label.subrange(0, 2)[0] == "0X"@[0] && label.subrange(0, 2)[1] == "0X"@[1]);
            }
        }
    }
    if hexadecimal {
        let digits = label.skip(2);
        if text::all_hex_digits(digits) {
            assert forall|i: int| 2 <= i < label.len() implies text::is_hex_digit(
                #[trigger] label[i],
            ) by {
                assert(digits[i - 2] == label[i]);
            }
        }
    } else {
        if all_octal_digits(label) {
            assert forall|i: int| 0 <= i < label.len() implies '0' <= #[trigger] label[i]
                <= '7' by {
                assert(is_octal_digit(label[i]));
            }
        }
        if text::all_digits(label) {
            assert forall|i: int| 0 <= i < label.len() implies '0' <= #[trigger] label[i]
                <= '9' by {
                assert(text::is_digit(label[i]));
            }
        }
    }
}

/// A scope takes a name exactly where it resolves under HNS and is the root or ends in a
/// dot and the root. It takes it as it is.
pub proof fn scopes_take_their_names(host: Seq<char>, class: NameClass, root: Seq<char>)
    ensures
        ({
            let inside = host == root || exists|front: Seq<char>|
                host == #[trigger] (front.push('.') + root);
            let r = scope_decision(host, class, root);
            &&& r is Ok <==> class is Hns && inside
            &&& r is Ok ==> r->Ok_0 == host
            &&& class is Icann ==> r == Err::<Seq<char>, HostScopeError>(HostScopeError::NotHns)
            &&& class is Hns && !inside ==> r == Err::<Seq<char>, HostScopeError>(
                HostScopeError::OutOfScope,
            )
        }),
{
    if is_within(host, root) && host != root {
        let front = host.take(host.len() - root.len() - 1);
        assert(host =~= front.push('.') + root);
    }
    assert forall|front: Seq<char>| host == #[trigger] (front.push('.') + root) implies is_within(
        host,
        root,
    ) by {
        assert(host.skip(host.len() - root.len()) =~= root);
    }
}

/// A host that is parsed is the one that is meant, and so is a fault.
pub proof fn parsed_hosts_agree(
    r: Result<NormalizedHost, HostNormalizationError>,
    v: Result<Seq<char>, HostNormalizationError>,
)
    ensures
        same_host(r, v) <==> {
            &&& r is Ok <==> v is Ok
            &&& r is Ok ==> r->Ok_0@ == v->Ok_0
            &&& r is Err ==> r->Err_0 == v->Err_0
        },
{
}

/// A scope allows a name exactly where it is one, resolves under HNS, and is within the root.
pub proof fn scopes_allow_their_names(
    scope: &HostScope,
    candidate: &str,
    host: &NormalizedHost,
    class: NameClass,
    allowed: bool,
    allowed_normalized: bool,
)
    requires
        call_ensures(HostScope::allows, (scope, candidate, class), allowed),
        call_ensures(HostScope::allows_normalized, (scope, host, class), allowed_normalized),
    ensures
        allowed <==> normalized(candidate@) is Ok && scope_decision(
            normalized(candidate@)->Ok_0,
            class,
            scope@,
        ) is Ok,
        allowed_normalized <==> scope_decision(host@, class, scope@) is Ok,
{
}

/// Each fault is told in its own words.
pub proof fn faults_of_hosts_have_their_words(e: HostNormalizationError)
    ensures
        host_error_text(e) == (match e {
            HostNormalizationError::Empty => "host is empty"@,
            HostNormalizationError::SurroundingWhitespace => "host contains surrounding whitespace"@,
            HostNormalizationError::ForbiddenCharacter =>
                "host contains a forbidden authority character"@,
            HostNormalizationError::InvalidIdna => "host is not valid strict IDNA"@,
            HostNormalizationError::InvalidDnsName => "host violates DNS name length or label rules"@,
            HostNormalizationError::IpLiteral => "IP literals are outside the HNS proxy boundary"@,
        }),
{
}

} // verus!

//! Per-instance capability credentials for the loopback proxy.

use crate::crypto;
use crate::text;
use vstd::prelude::*;

verus! {

pub const PROXY_AUTHORIZATION_HEADER: &'static str = "Proxy-Authorization";

pub const PROXY_AUTHENTICATE_HEADER: &'static str = "Proxy-Authenticate";

pub const REALM_RANDOM_BYTES: usize = 12;

pub const PASSWORD_RANDOM_BYTES: usize = 32;

pub const MAX_ENCODED_CREDENTIAL_BYTES: usize = 256;

/// The operating system's random number generator failed.
#[derive(Clone, Copy, Debug, PartialEq, Eq, Structural)]
pub struct AuthorizationGenerationError;

impl AuthorizationGenerationError {
    /// What went wrong, in words.
    pub fn message(&self) -> (r: &'static str)
        ensures
            r@ == "the operating-system random number generator failed"@,
    {
        "the operating-system random number generator failed"
    }
}

/// Fresh credentials that every request to a running proxy must carry,
/// `CONNECT` requests among them.
pub struct ProxyAuthorization {
    realm: String,
    username: String,
    password: String,
    expected_credentials_digest: Vec<u8>,
    expected_credentials_len: usize,
}

#[verifier::ext_equal]
pub struct AuthorizationView {
    pub realm: Seq<char>,
    pub password: Seq<char>,
}

pub open spec fn username_text() -> Seq<char> {
    "hns-browser"@
}

impl AuthorizationView {
    /// User name and password, as they are sent.
    pub open spec fn credentials(self) -> Seq<u8> {
        vstd::utf8::encode_utf8(username_text() + seq![':'] + self.password)
    }

    /// Whether a header value carries these credentials.
    pub open spec fn accepts(self, value: Seq<char>) -> bool {
        match basic_token_of(value) {
            None => false,
            Some(token) => vstd::utf8::encode_utf8(token).len() <= MAX_ENCODED_CREDENTIAL_BYTES
                && match crypto::base64_bytes(token) {
                None => false,
                Some(supplied) => crypto::sha256_of(supplied) == crypto::sha256_of(
                    self.credentials(),
                ) && supplied.len() == self.credentials().len(),
            },
        }
    }
}

impl View for ProxyAuthorization {
    type V = AuthorizationView;

    closed spec fn view(&self) -> AuthorizationView {
        AuthorizationView { realm: self.realm@, password: self.password@ }
    }
}

pub open spec fn is_blank(c: char) -> bool {
    c == ' ' || c == '\t'
}

pub open spec fn has_stray_control(s: Seq<char>) -> bool {
    exists|i: int|
        0 <= i < s.len() && text::is_unicode_control(#[trigger] s[i]) && !is_blank(s[i])
}

pub open spec fn has_whitespace(s: Seq<char>) -> bool {
    exists|i: int| 0 <= i < s.len() && text::is_whitespace(#[trigger] s[i])
}

/// Where the first blank stands, or the length where there is none.
pub open spec fn first_blank(s: Seq<char>) -> int
    decreases s.len(),
{
    if s.len() == 0 || is_blank(s[0]) {
        0
    } else {
        1 + first_blank(s.drop_first())
    }
}

/// The token of a Basic credential: the scheme, blanks, and one run of
/// characters without whitespace.
pub open spec fn basic_token_of(value: Seq<char>) -> Option<Seq<char>> {
    let blank = |c: char| is_blank(c);
    let v = text::trim_where(value, blank);
    let k = first_blank(v);
    let token = text::trim_start(v.skip(k), blank);
    if has_stray_control(value) || k == v.len() || !text::eq_ignore_case(v.take(k), "Basic"@)
        || token.len() == 0 || has_whitespace(token) {
        None
    } else {
        Some(token)
    }
}

fn char_is_blank(c: char) -> (r: bool)
    ensures
        r == is_blank(c),
{
    c == ' ' || c == '\t'
}

fn contains_stray_control(s: &[char]) -> (r: bool)
    ensures
        r == has_stray_control(s@),
{
    let mut i: usize = 0;
    while i < s.len()
        invariant
            i <= s@.len(),
            forall|j: int|
                0 <= j < i ==> !(text::is_unicode_control(#[trigger] s@[j]) && !is_blank(s@[j])),
        decreases s.len() - i,
    {
        if text::char_is_unicode_control(s[i]) && !char_is_blank(s[i]) {
            return true;
        }
        i += 1;
    }
    false
}

fn contains_whitespace(s: &[char]) -> (r: bool)
    ensures
        r == has_whitespace(s@),
{
    let mut i: usize = 0;
    while i < s.len()
        invariant
            i <= s@.len(),
            forall|j: int| 0 <= j < i ==> !text::is_whitespace(#[trigger] s@[j]),
        decreases s.len() - i,
    {
        if text::char_is_whitespace(s[i]) {
            return true;
        }
        i += 1;
    }
    false
}

fn trim_blank_start(s: &[char]) -> (r: Vec<char>)
    ensures
        r@ == text::trim_start(s@, |c: char| is_blank(c)),
{
    let ghost blank = |c: char| is_blank(c);
    let mut from: usize = 0;
    assert(s@.skip(0) == s@);
    while from < s.len() && char_is_blank(s[from])
        invariant
            from <= s@.len(),
            blank == (|c: char| is_blank(c)),
            text::trim_start(s@, blank) == text::trim_start(s@.skip(from as int), blank),
        decreases s.len() - from,
    {
        assert(s@.skip(from as int).drop_first() == s@.skip(from as int + 1));
        from += 1;
    }
    let r = text::chars_between(s, from, s.len());
    assert(r@ == s@.skip(from as int));
    r
}

fn trim_blank_end(s: &[char]) -> (r: Vec<char>)
    ensures
        r@ == text::trim_end(s@, |c: char| is_blank(c)),
{
    let ghost blank = |c: char| is_blank(c);
    let mut to: usize = s.len();
    assert(s@.take(to as int) == s@);
    while to > 0 && char_is_blank(s[to - 1])
        invariant
            to <= s@.len(),
            blank == (|c: char| is_blank(c)),
            text::trim_end(s@, blank) == text::trim_end(s@.take(to as int), blank),
        decreases to,
    {
        assert(s@.take(to as int).drop_last() == s@.take(to as int - 1));
        to -= 1;
    }
    let r = text::chars_between(s, 0, to);
    assert(r@ == s@.take(to as int));
    r
}

fn find_blank(s: &[char]) -> (r: usize)
    ensures
        r == first_blank(s@),
        r <= s@.len(),
{
    let mut i: usize = 0;
    assert(s@.skip(0) == s@);
    while i < s.len()
        invariant
            i <= s@.len(),
            first_blank(s@) == i + first_blank(s@.skip(i as int)),
        decreases s.len() - i,
    {
        if char_is_blank(s[i]) {
            return i;
        }
        assert(s@.skip(i as int).drop_first() == s@.skip(i as int + 1));
        i += 1;
    }
    i
}

/// The token of a Basic credential.
pub fn basic_token(value: &str) -> (r: Option<String>)
    ensures
        match (r, basic_token_of(value@)) {
            (Some(t), Some(v)) => t@ == v,
            (None, None) => true,
            _ => false,
        },
{
    let chars = text::to_chars(value);
    if contains_stray_control(chars.as_slice()) {
        return None;
    }
    let started = trim_blank_start(chars.as_slice());
    let v = trim_blank_end(started.as_slice());
    let k: usize = find_blank(v.as_slice());
    if k == v.len() {
        return None;
    }
    let scheme = text::chars_between(v.as_slice(), 0, k);
    assert(scheme@ == v@.take(k as int));
    if !text::chars_are_ignoring_case(scheme.as_slice(), "Basic") {
        return None;
    }
    let rest = text::chars_between(v.as_slice(), k, v.len());
    assert(rest@ == v@.skip(k as int));
    let token = trim_blank_start(rest.as_slice());
    if token.len() == 0 || contains_whitespace(token.as_slice()) {
        return None;
    }
    Some(text::from_chars(token.as_slice()))
}

/// The bytes that the random number generator gave as URL-safe text, where it gave
/// some.
pub fn url_token(random: Option<Vec<u8>>) -> (r: Result<String, AuthorizationGenerationError>)
    requires
        random matches Some(b) ==> b@.len() <= crypto::MAX_INPUT_BYTES,
    ensures
        match random {
            Some(b) => {
                &&& r matches Ok(s)
                &&& s@ == crypto::base64_url_text(b@)
                &&& s@.len() == (b@.len() * 4 + 2) / 3
                &&& is_url_text(s@)
            },
            None => r == Err::<String, _>(AuthorizationGenerationError),
        },
{
    match random {
        None => Err(AuthorizationGenerationError),
        Some(bytes) => Ok(crypto::base64_url_encode(bytes.as_slice())),
    }
}

/// Random bytes as URL-safe text. Whether there are some rests on the system's
/// random number generator.
fn random_url_token(count: usize) -> (r: Result<String, AuthorizationGenerationError>)
    requires
        count <= 4096,
    ensures
        match r {
            Ok(s) => crypto::is_url_token(s@, count as nat) && s@.len() == (count * 4 + 2) / 3
                && is_url_text(s@),
            Err(_) => true,
        },
{
    url_token(crypto::random_bytes(count))
}

pub open spec fn is_url_text(s: Seq<char>) -> bool {
    forall|i: int| 0 <= i < s.len() ==> crypto::is_base64_url_char(#[trigger] s[i])
}

/// How many bytes of credentials fit in the longest accepted token.
pub const MAX_CREDENTIAL_BYTES: usize = 192;

impl ProxyAuthorization {
    #[verifier::type_invariant]
    spec fn consistent(self) -> bool {
        &&& self.username@ == username_text()
        &&& self@.credentials().len() <= crypto::MAX_INPUT_BYTES
        &&& self.expected_credentials_digest@ == crypto::sha256_of(self@.credentials())
        &&& self.expected_credentials_len == self@.credentials().len()
    }

    /// Generates fresh credentials: realm and password hold URL-safe text of random
    /// bytes, of which nothing is said.
    pub fn generate() -> (r: Result<Self, AuthorizationGenerationError>)
        ensures
            match r {
                Ok(a) => {
                    &&& "hns-loopback-"@.is_prefix_of(a@.realm)
                    &&& a@.realm.len() == "hns-loopback-"@.len() + 16
                    &&& crypto::is_url_token(
                        a@.realm.skip("hns-loopback-"@.len() as int),
                        REALM_RANDOM_BYTES as nat,
                    )
                    &&& a@.password.len() == 43
                    &&& crypto::is_url_token(a@.password, PASSWORD_RANDOM_BYTES as nat)
                    &&& is_url_text(a@.password)
                    &&& a@.credentials().len() <= MAX_CREDENTIAL_BYTES
                },
                Err(_) => true,
            },
    {
        let realm = random_url_token(REALM_RANDOM_BYTES);
        let password = match &realm {
            Ok(_) => random_url_token(PASSWORD_RANDOM_BYTES),
            Err(e) => Err(*e),
        };
        proof {
            if password is Ok {
                lemma_credentials_len(password->Ok_0@);
            }
        }
        let r = ProxyAuthorization::from_tokens(realm, password);
        proof {
            if r is Ok {
                let prefix = "hns-loopback-"@;
                let made = r->Ok_0@.realm;
                assert(prefix == made.subrange(0, prefix.len() as int));
                assert(made.skip(prefix.len() as int) == realm->Ok_0@);
            }
        }
        r
    }

    /// Credentials with a generated realm and a generated password, where both were
    /// generated.
    pub fn from_tokens(
        realm: Result<String, AuthorizationGenerationError>,
        password: Result<String, AuthorizationGenerationError>,
    ) -> (r: Result<Self, AuthorizationGenerationError>)
        requires
            password matches Ok(p) ==> vstd::utf8::encode_utf8(
                username_text() + seq![':'] + p@,
            ).len() <= crypto::MAX_INPUT_BYTES,
        ensures
            match (realm, password) {
                (Ok(t), Ok(p)) => {
                    &&& r matches Ok(a)
                    &&& a@ == (AuthorizationView {
                        realm: "hns-loopback-"@ + t@,
                        password: p@,
                    })
                },
                _ => r is Err,
            },
    {
        match (realm, password) {
            (Ok(token), Ok(password)) => {
                let mut realm = text::to_chars("hns-loopback-");
                text::push_str(&mut realm, token.as_str());
                let realm = text::from_chars(realm.as_slice());
                Ok(ProxyAuthorization::from_generated_parts(realm, password))
            },
            _ => Err(AuthorizationGenerationError),
        }
    }

    /// Credentials with the given realm and password, whose user name is fixed.
    pub fn from_generated_parts(realm: String, password: String) -> (r: Self)
        requires
            (AuthorizationView { realm: realm@, password: password@ }).credentials().len()
                <= crypto::MAX_INPUT_BYTES,
        ensures
            r@ == (AuthorizationView { realm: realm@, password: password@ }),
    {
        let mut credentials = text::to_chars("hns-browser");
        credentials.push(':');
        text::push_str(&mut credentials, password.as_str());
        assert(credentials@ == username_text() + seq![':'] + password@);
        let credentials = text::from_chars(credentials.as_slice());
        let bytes = credentials.as_str().as_bytes();
        let digest = crypto::sha256(bytes);
        let len: usize = bytes.len();
        ProxyAuthorization {
            realm,
            username: "hns-browser".to_owned(),
            password,
            expected_credentials_digest: digest,
            expected_credentials_len: len,
        }
    }

    pub fn realm(&self) -> (r: &str)
        ensures
            r@ == self@.realm,
    {
        self.realm.as_str()
    }

    pub fn username(&self) -> (r: &str)
        ensures
            r@ == username_text(),
    {
        proof {
            use_type_invariant(self);
        }
        self.username.as_str()
    }

    pub fn password(&self) -> (r: &str)
        ensures
            r@ == self@.password,
    {
        self.password.as_str()
    }

    fn credentials(&self) -> (r: String)
        ensures
            r@ == username_text() + seq![':'] + self@.password,
    {
        proof {
            use_type_invariant(self);
        }
        let mut v = text::to_chars(self.username.as_str());
        v.push(':');
        text::push_str(&mut v, self.password.as_str());
        assert(v@ == username_text() + seq![':'] + self@.password);
        text::from_chars(v.as_slice())
    }

    /// The header value that carries these credentials. They verify, unless
    /// they are longer than any token that is accepted.
    pub fn authorization_header_value(&self) -> (r: String)
        ensures
            r@ == "Basic "@ + crypto::base64_text(self@.credentials()),
            self@.credentials().len() <= MAX_CREDENTIAL_BYTES ==> self@.accepts(r@),
    {
        proof {
            use_type_invariant(self);
        }
        let credentials = self.credentials();
        let encoded = crypto::base64_encode(credentials.as_str().as_bytes());
        let mut v = text::to_chars("Basic ");
        text::push_str(&mut v, encoded.as_str());
        proof {
            if self@.credentials().len() <= MAX_CREDENTIAL_BYTES {
                lemma_credentials_nonempty(self@.password);
                lemma_basic_value(encoded@);
                lemma_base64_is_ascii(encoded@);
            }
        }
        text::from_chars(v.as_slice())
    }

    pub fn challenge_header_value(&self) -> (r: String)
        ensures
            r@ == "Basic realm=\""@ + self@.realm + "\""@,
    {
        let mut v = text::to_chars("Basic realm=\"");
        text::push_str(&mut v, self.realm.as_str());
        text::push_str(&mut v, "\"");
        text::from_chars(v.as_slice())
    }

    /// Verifies exactly one header value. Every occurrence of the field must be
    /// passed, so that duplicates fail.
    pub fn verify_header_values(&self, values: &[&str]) -> (r: bool)
        ensures
            r == (values@.len() == 1 && self@.accepts(values@[0]@)),
    {
        values.len() == 1 && self.verify_header_value(values[0])
    }

    /// Verifies a header value.
    pub fn verify_header_value(&self, value: &str) -> (r: bool)
        ensures
            r == self@.accepts(value@),
    {
        let token = match basic_token(value) {
            Some(t) => t,
            None => {
                return false;
            },
        };
        let token_bytes = token.as_str().as_bytes();
        if token_bytes.len() > MAX_ENCODED_CREDENTIAL_BYTES {
            return false;
        }
        match crypto::base64_decode(token.as_str()) {
            None => false,
            Some(supplied) => {
                let digest = crypto::sha256(supplied.as_slice());
                self.matches_digest(digest.as_slice(), supplied.len())
            },
        }
    }

    /// Whether a digest and a length are those of the expected credentials.
    pub fn matches_digest(&self, digest: &[u8], len: usize) -> (r: bool)
        ensures
            r == (digest@ == crypto::sha256_of(self@.credentials()) && len
                == self@.credentials().len()),
    {
        proof {
            use_type_invariant(self);
        }
        let same = crypto::constant_time_eq(digest, self.expected_credentials_digest.as_slice());
        same && len == self.expected_credentials_len
    }

    /// Whether a challenge is for this proxy: at the IPv4 loopback address, with
    /// or without brackets, and in the exact realm.
    pub fn matches_challenge(&self, host: &str, challenge_realm: &str) -> (r: bool)
        ensures
            r == (unbracketed(text::trim(host@)) == "127.0.0.1"@ && challenge_realm@
                == self@.realm),
    {
        let chars = text::to_chars(host);
        let trimmed = text::trim_chars(chars.as_slice());
        let n: usize = trimmed.len();
        let inner = if n >= 2 && trimmed[0] == '[' && trimmed[n - 1] == ']' {
            text::chars_between(trimmed.as_slice(), 1, n - 1)
        } else {
            trimmed
        };
        assert(inner@ == unbracketed(text::trim(host@)));
        let loopback = text::to_chars("127.0.0.1");
        text::same_chars(inner.as_slice(), loopback.as_slice()) && text::same_text(
            challenge_realm,
            self.realm.as_str(),
        )
    }

    /// A diagnostic description that withholds every component.
    pub fn describe(&self) -> (r: &'static str)
        ensures
            r@ == "ProxyAuthorization { realm: \"[REDACTED]\", username: \"[REDACTED]\", password: \"[REDACTED]\", .. }"@,
    {
        "ProxyAuthorization { realm: \"[REDACTED]\", username: \"[REDACTED]\", password: \"[REDACTED]\", .. }"
    }
}

pub open spec fn unbracketed(s: Seq<char>) -> Seq<char> {
    if s.len() >= 2 && s[0] == '[' && s.last() == ']' {
        s.subrange(1, s.len() - 1)
    } else {
        s
    }
}

proof fn lemma_base64_is_ascii(s: Seq<char>)
    requires
        forall|i: int| 0 <= i < s.len() ==> crypto::is_base64_char(#[trigger] s[i]),
    ensures
        vstd::utf8::encode_utf8(s).len() == s.len(),
{
    assert forall|i: int| 0 <= i < s.len() implies (#[trigger] s[i] as u32) < 0x80 by {
        assert(crypto::is_base64_char(s[i]));
    }
    vstd::utf8::is_ascii_chars_encode_utf8(s);
}

proof fn lemma_credentials_nonempty(password: Seq<char>)
    ensures
        vstd::utf8::encode_utf8(username_text() + seq![':'] + password).len() > 0,
{
    let s = username_text() + seq![':'] + password;
    reveal_strlit("hns-browser");
    assert(s.len() > 0);
    reveal_with_fuel(vstd::utf8::encode_utf8, 1);
}

proof fn lemma_credentials_len(password: Seq<char>)
    requires
        is_url_text(password),
        password.len() == 43,
    ensures
        vstd::utf8::encode_utf8(username_text() + seq![':'] + password).len()
            <= MAX_CREDENTIAL_BYTES,
{
    let s = username_text() + seq![':'] + password;
    reveal_strlit("hns-browser");
    assert forall|i: int| 0 <= i < s.len() implies (#[trigger] s[i] as u32) < 0x80 by {
        if i >= 12 {
            assert(s[i] == password[i - 12]);
            assert(crypto::is_base64_url_char(password[i - 12]));
        }
    }
    vstd::utf8::is_ascii_chars_encode_utf8(s);
}

proof fn lemma_trim_end_keeps(s: Seq<char>)
    requires
        s.len() > 0,
        !is_blank(s.last()),
    ensures
        text::trim_end(s, |c: char| is_blank(c)) == s,
{
}

/// A Basic value holds its token, where the token is visible text.
proof fn lemma_basic_value(token: Seq<char>)
    requires
        token.len() > 0,
        forall|i: int| 0 <= i < token.len() ==> crypto::is_base64_char(#[trigger] token[i]),
    ensures
        basic_token_of("Basic "@ + token) == Some(token),
{
    reveal_strlit("Basic ");
    reveal_strlit("Basic");
    let value = "Basic "@ + token;
    let blank = |c: char| is_blank(c);
    assert forall|i: int| 6 <= i < value.len() implies crypto::is_base64_char(
        #[trigger] value[i],
    ) by {
        assert(value[i] == token[i - 6]);
    }
    assert(!has_stray_control(value)) by {
        assert forall|i: int| 0 <= i < value.len() implies !(text::is_unicode_control(
            #[trigger] value[i],
        ) && !is_blank(value[i])) by {
            if i >= 6 {
                assert(crypto::is_base64_char(value[i]));
            }
        }
    }
    assert(text::trim_start(value, blank) == value);
    assert(value.last() == token.last());
    assert(crypto::is_base64_char(token[token.len() - 1]));
    lemma_trim_end_keeps(value);
    assert(text::trim_where(value, blank) == value);
    lemma_first_blank(value, 5);
    assert(value.take(5) =~= "Basic"@);
    let rest = value.skip(5);
    assert(rest[0] == ' ');
    assert(rest.drop_first() =~= token);
    assert(crypto::is_base64_char(token[0]));
    assert(text::trim_start(rest, blank) == text::trim_start(token, blank));
    assert(text::trim_start(token, blank) == token);
    assert(!has_whitespace(token)) by {
        assert forall|i: int| 0 <= i < token.len() implies !text::is_whitespace(
            #[trigger] token[i],
        ) by {
            assert(crypto::is_base64_char(token[i]));
        }
    }
}

proof fn lemma_first_blank(s: Seq<char>, k: int)
    requires
        0 <= k <= s.len(),
        forall|i: int| 0 <= i < k ==> !is_blank(#[trigger] s[i]),
        k < s.len() ==> is_blank(s[k]),
    ensures
        first_blank(s) == k,
    decreases k,
{
    if k > 0 {
        assert(!is_blank(s[0]));
        let t = s.drop_first();
        assert forall|i: int| 0 <= i < k - 1 implies !is_blank(#[trigger] t[i]) by {
            assert(t[i] == s[i + 1]);
        }
        lemma_first_blank(t, k - 1);
    }
}

// ---------------------------------------------------------------------
// Laws
// ---------------------------------------------------------------------

pub open spec fn all_blank(s: Seq<char>) -> bool {
    forall|i: int| 0 <= i < s.len() ==> #[trigger] s[i] == ' ' || s[i] == '\t'
}

proof fn lemma_trim_start_blank(a: Seq<char>, s: Seq<char>, blank: spec_fn(char) -> bool)
    requires
        blank == (|c: char| is_blank(c)),
        all_blank(a),
        s.len() > 0 ==> !is_blank(s[0]),
    ensures
        text::trim_start(a + s, blank) == s,
    decreases a.len(),
{
    if a.len() == 0 {
        assert(a + s =~= s);
    } else {
        let rest = a.drop_first();
        assert(a[0] == ' ' || a[0] == '\t');
        assert forall|i: int| 0 <= i < rest.len() implies #[trigger] rest[i] == ' ' || rest[i]
            == '\t' by {
            assert(a[i + 1] == ' ' || a[i + 1] == '\t');
        }
        assert((a + s).drop_first() =~= rest + s);
        assert((a + s)[0] == a[0]);
        lemma_trim_start_blank(rest, s, blank);
    }
}

proof fn lemma_trim_end_blank(s: Seq<char>, a: Seq<char>, blank: spec_fn(char) -> bool)
    requires
        blank == (|c: char| is_blank(c)),
        all_blank(a),
        s.len() > 0 ==> !is_blank(s.last()),
    ensures
        text::trim_end(s + a, blank) == s,
    decreases a.len(),
{
    if a.len() == 0 {
        assert(s + a =~= s);
    } else {
        let rest = a.drop_last();
        assert(a[a.len() - 1] == ' ' || a[a.len() - 1] == '\t');
        assert forall|i: int| 0 <= i < rest.len() implies #[trigger] rest[i] == ' ' || rest[i]
            == '\t' by {
            assert(a[i] == ' ' || a[i] == '\t');
        }
        assert((s + a).drop_last() =~= s + rest);
        assert((s + a).last() == a.last());
        lemma_trim_end_blank(s, rest, blank);
    }
}

proof fn lemma_first_blank_at(s: Seq<char>, k: int)
    requires
        0 <= k <= s.len(),
        forall|i: int| 0 <= i < k ==> !is_blank(#[trigger] s[i]),
        k < s.len() ==> is_blank(s[k]),
    ensures
        first_blank(s) == k,
    decreases s.len(),
{
    if k > 0 {
        let rest = s.drop_first();
        assert(!is_blank(s[0]));
        assert forall|i: int| 0 <= i < k - 1 implies !is_blank(#[trigger] rest[i]) by {
            assert(!is_blank(s[i + 1]));
        }
        lemma_first_blank_at(rest, k - 1);
    }
}

/// A token is read from any value that names the Basic scheme, in any case, and the token
/// after at least one blank, whatever blanks stand around them; it is the token as it
/// stands. Neither another scheme nor an empty token is read.
pub proof fn tokens_are_read_from_basic_values(
    before: Seq<char>,
    scheme: Seq<char>,
    gap: Seq<char>,
    token: Seq<char>,
    after: Seq<char>,
)
    requires
        all_blank(before) && all_blank(gap) && all_blank(after),
        gap.len() > 0,
        forall|i: int|
            0 <= i < scheme.len() ==> 0x21 <= (#[trigger] scheme[i] as u32) <= 0x7e,
        forall|i: int| 0 <= i < token.len() ==> 0x21 <= (#[trigger] token[i] as u32) <= 0x7e,
    ensures
        basic_token_of(before + scheme + gap + token + after) == if text::lower(scheme) == "basic"@
            && token.len() > 0 {
            Some(token)
        } else {
            None
        },
{
    let blank = |c: char| is_blank(c);
    let value = before + scheme + gap + token + after;
    reveal_strlit("Basic");
    reveal_strlit("basic");
    assert(text::lower("Basic"@) =~= "basic"@);
    assert forall|i: int| 0 <= i < scheme.len() implies !is_blank(#[trigger] scheme[i]) by {
        assert(0x21 <= scheme[i] as u32);
    }
    assert forall|i: int| 0 <= i < token.len() implies !is_blank(#[trigger] token[i])
        && !text::is_whitespace(token[i]) by {
        assert(0x21 <= token[i] as u32 <= 0x7e);
        text::characters_are_classed(token[i]);
    }
    assert(!has_whitespace(token));
    assert(!has_stray_control(value)) by {
        assert forall|i: int| 0 <= i < value.len() && !is_blank(
            #[trigger] value[i],
        ) implies !text::is_unicode_control(value[i]) by {
            let a = before.len() as int;
            let b = a + scheme.len();
            let c = b + gap.len();
            let d = c + token.len();
            if i < a {
                assert(value[i] == before[i]);
            } else if i < b {
                assert(value[i] == scheme[i - a]);
                assert(0x21 <= scheme[i - a] as u32 <= 0x7e);
            } else if i < c {
                assert(value[i] == gap[i - b]);
            } else if i < d {
                assert(value[i] == token[i - c]);
                assert(0x21 <= token[i - c] as u32 <= 0x7e);
            } else {
                assert(value[i] == after[i - d]);
            }
        }
    }
    if scheme.len() == 0 {
        // The token stands where the scheme should.
        let v = text::trim_where(value, blank);
        let front = before + gap;
        assert forall|i: int| 0 <= i < front.len() implies #[trigger] front[i] == ' ' || front[i]
            == '\t' by {
            if i < before.len() {
                assert(before[i] == ' ' || before[i] == '\t');
            } else {
                assert(gap[i - before.len()] == ' ' || gap[i - before.len()] == '\t');
            }
        }
        if token.len() == 0 {
            assert(value =~= (front + after) + Seq::<char>::empty());
            let all = front + after;
            assert forall|i: int| 0 <= i < all.len() implies #[trigger] all[i] == ' ' || all[i]
                == '\t' by {
                if i < front.len() {
                    assert(front[i] == ' ' || front[i] == '\t');
                } else {
                    assert(after[i - front.len()] == ' ' || after[i - front.len()] == '\t');
                }
            }
            lemma_trim_start_blank(all, Seq::empty(), blank);
            assert(v.len() == 0);
        } else {
            assert(value =~= front + (token + after));
            assert((token + after)[0] == token[0]);
            assert(!is_blank(token[0]) && !is_blank(token[token.len() - 1]));
            lemma_trim_start_blank(front, token + after, blank);
            lemma_trim_end_blank(token, after, blank);
            assert(v == token);
            lemma_first_blank_at(token, token.len() as int);
        }
        assert(text::lower(scheme) != "basic"@) by {
            assert(text::lower(scheme).len() == 0);
        }
    } else {
        let rest = scheme + gap + token + after;
        assert(value =~= before + rest);
        assert(rest[0] == scheme[0] && !is_blank(scheme[0]));
        lemma_trim_start_blank(before, rest, blank);
        let v = text::trim_where(value, blank);
        if token.len() == 0 {
            let tail = gap + after;
            assert forall|i: int| 0 <= i < tail.len() implies #[trigger] tail[i] == ' ' || tail[i]
                == '\t' by {
                if i < gap.len() {
                    assert(gap[i] == ' ' || gap[i] == '\t');
                } else {
                    assert(after[i - gap.len()] == ' ' || after[i - gap.len()] == '\t');
                }
            }
            assert(rest =~= scheme + tail);
            assert(!is_blank(scheme[scheme.len() - 1]));
            lemma_trim_end_blank(scheme, tail, blank);
            assert(v == scheme);
            lemma_first_blank_at(scheme, scheme.len() as int);
        } else {
            let whole = scheme + gap + token;
            assert(rest =~= whole + after);
            assert(whole.last() == token[token.len() - 1]);
            assert(!is_blank(token[token.len() - 1]));
            lemma_trim_end_blank(whole, after, blank);
            assert(v == whole);
            let k = scheme.len() as int;
            assert forall|i: int| 0 <= i < k implies !is_blank(#[trigger] whole[i]) by {
                assert(whole[i] == scheme[i]);
            }
            assert(whole[k] == gap[0] && is_blank(gap[0]));
            lemma_first_blank_at(whole, k);
            assert(whole.take(k) =~= scheme);
            assert(whole.skip(k) =~= gap + token);
            assert(!is_blank(token[0]));
            lemma_trim_start_blank(gap, token, blank);
        }
    }
}

/// Credentials are the fixed user name and the password, and are accepted from every value
/// with a token of at most 256 bytes that decodes to them; whatever is accepted decodes to
/// bytes of their number and digest.
pub proof fn the_right_credentials_are_accepted(
    authorization: AuthorizationView,
    value: Seq<char>,
    token: Seq<char>,
)
    ensures
        authorization.credentials() == vstd::utf8::encode_utf8(
            "hns-browser"@ + seq![':'] + authorization.password,
        ),
        basic_token_of(value) == Some(token) && crypto::base64_bytes(token) == Some(
            authorization.credentials(),
        ) && vstd::utf8::encode_utf8(token).len() <= 256 ==> authorization.accepts(value),
        authorization.accepts(value) ==> {
            &&& basic_token_of(value) matches Some(t)
            &&& vstd::utf8::encode_utf8(t).len() <= 256
            &&& crypto::base64_bytes(t) matches Some(supplied)
            &&& supplied.len() == authorization.credentials().len()
            &&& crypto::sha256_of(supplied) == crypto::sha256_of(authorization.credentials())
        },
{
}

/// No value with a control in it holds a token, other than a tab; what is held has no white
/// space in it.
pub proof fn strange_values_hold_no_token(value: Seq<char>)
    ensures
        (exists|i: int|
            0 <= i < value.len() && text::is_unicode_control(#[trigger] value[i]) && value[i]
                != '\t') ==> basic_token_of(value) is None,
        basic_token_of(value) matches Some(token) ==> token.len() > 0 && forall|i: int|
            0 <= i < token.len() ==> !text::is_whitespace(#[trigger] token[i]),
{
    if exists|i: int|
        0 <= i < value.len() && text::is_unicode_control(#[trigger] value[i]) && value[i] != '\t' {
        let i = choose|i: int|
            0 <= i < value.len() && text::is_unicode_control(#[trigger] value[i]) && value[i]
                != '\t';
        assert(text::is_unicode_control(value[i]) && !is_blank(value[i]));
    }
}

/// Brackets are taken off a host that has both.
pub proof fn brackets_are_taken_off(host: Seq<char>)
    ensures
        unbracketed(seq!['['] + host + seq![']']) == host,
        host.len() < 2 || host[0] != '[' || host.last() != ']' ==> unbracketed(host) == host,
{
    let s = seq!['['] + host + seq![']'];
    assert(s.last() == ']');
    assert(s.subrange(1, s.len() - 1) =~= host);
}

/// Credentials are written and asked for as the basic scheme has them, and one value is
/// taken, where it is right. A challenge is the proxy's own where it comes from the loopback
/// address in its realm.
pub proof fn credentials_are_written_as_basic(
    a: &ProxyAuthorization,
    value: String,
    challenge: String,
    given: &[&str],
    accepted: bool,
    host: &str,
    realm: &str,
    own: bool,
)
    requires
        call_ensures(ProxyAuthorization::authorization_header_value, (a,), value),
        call_ensures(ProxyAuthorization::challenge_header_value, (a,), challenge),
        call_ensures(ProxyAuthorization::verify_header_values, (a, given), accepted),
        call_ensures(ProxyAuthorization::matches_challenge, (a, host, realm), own),
    ensures
        value@ == "Basic "@ + crypto::base64_text(a@.credentials()),
        challenge@ == "Basic realm=\""@ + a@.realm + "\""@,
        accepted <==> given@.len() == 1 && a@.accepts(given@[0]@),
        own <==> unbracketed(text::trim(host@)) == "127.0.0.1"@ && realm@ == a@.realm,
{
}

} // verus!

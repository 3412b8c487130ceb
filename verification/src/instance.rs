//! Which proxy an endpoint, a pin or an event belongs to.

use crate::crypto;
use crate::text;
use vstd::prelude::*;

verus! {

pub const SESSION_RANDOM_BYTES: usize = 16;

/// The operating system's random number generator failed.
#[derive(Clone, Copy, Debug, PartialEq, Eq, Structural)]
pub struct SessionIdGenerationError;

/// An opaque session token.
#[derive(Clone, PartialEq, Eq)]
pub struct ProxySessionId {
    token: String,
}

impl View for ProxySessionId {
    type V = Seq<char>;

    closed spec fn view(&self) -> Seq<char> {
        self.token@
    }
}

impl ProxySessionId {
    /// A fresh token: URL-safe text of sixteen random bytes. Whether there are some
    /// rests on the system's random number generator.
    pub fn generate() -> (r: Result<Self, SessionIdGenerationError>)
        ensures
            r matches Ok(s) ==> s@.len() == 22 && crypto::is_url_token(
                s@,
                SESSION_RANDOM_BYTES as nat,
            ),
    {
        ProxySessionId::from_random(crypto::random_bytes(SESSION_RANDOM_BYTES))
    }

    /// The token of the bytes that the random number generator gave, where it gave
    /// some.
    pub fn from_random(random: Option<Vec<u8>>) -> (r: Result<Self, SessionIdGenerationError>)
        requires
            random matches Some(b) ==> b@.len() <= crypto::MAX_INPUT_BYTES,
        ensures
            match random {
                Some(b) => {
                    &&& r matches Ok(s)
                    &&& s@ == crypto::base64_url_text(b@)
                    &&& s@.len() == (b@.len() * 4 + 2) / 3
                },
                None => r == Err::<Self, _>(SessionIdGenerationError),
            },
    {
        match random {
            None => Err(SessionIdGenerationError),
            Some(bytes) => Ok(
                ProxySessionId { token: crypto::base64_url_encode(bytes.as_slice()) },
            ),
        }
    }

    /// The session with a known token.
    pub fn from_token(token: &str) -> (r: Self)
        ensures
            r@ == token@,
    {
        ProxySessionId { token: token.to_owned() }
    }

    pub fn as_str(&self) -> (r: &str)
        ensures
            r@ == self@,
    {
        self.token.as_str()
    }
}

/// One generation of one proxy session.
#[derive(Clone, PartialEq, Eq)]
pub struct ProxyInstanceId {
    session: ProxySessionId,
    generation: u64,
}

#[verifier::ext_equal]
pub struct InstanceView {
    pub session: Seq<char>,
    pub generation: u64,
}

impl View for ProxyInstanceId {
    type V = InstanceView;

    closed spec fn view(&self) -> InstanceView {
        InstanceView { session: self.session@, generation: self.generation }
    }
}

pub open spec fn description(generation: u64) -> Seq<char> {
    "ProxyInstanceId { session: \"[REDACTED]\", generation: "@ + text::decimal(generation as nat)
        + " }"@
}

impl ProxyInstanceId {
    pub fn new(session: ProxySessionId, generation: u64) -> (r: Self)
        ensures
            r@ == (InstanceView { session: session@, generation }),
    {
        ProxyInstanceId { session, generation }
    }

    pub fn session(&self) -> (r: &ProxySessionId)
        ensures
            r@ == self@.session,
    {
        &self.session
    }

    pub fn generation(&self) -> (r: u64)
        ensures
            r == self@.generation,
    {
        self.generation
    }

    pub fn same(&self, other: &ProxyInstanceId) -> (r: bool)
        ensures
            r == (self@ == other@),
    {
        self.generation == other.generation && text::same_text(
            self.session.as_str(),
            other.session.as_str(),
        )
    }

    /// A diagnostic description that withholds the session.
    pub fn describe(&self) -> (r: String)
        ensures
            r@ == description(self@.generation),
    {
        let mut v = text::to_chars(
            "ProxyInstanceId { session: \"[REDACTED]\", generation: ",
        );
        let d = text::digits_of(self.generation, 10);
        text::push_chars(&mut v, d.as_slice());
        text::push_str(&mut v, " }");
        text::from_chars(v.as_slice())
    }

    pub fn copy(&self) -> (r: Self)
        ensures
            r@ == self@,
    {
        ProxyInstanceId {
            session: ProxySessionId { token: self.session.token.clone() },
            generation: self.generation,
        }
    }
}

/// An instance is described by its generation; its session is not told.
pub proof fn sessions_are_not_told(generation: u64)
    ensures
        description(generation) == "ProxyInstanceId { session: \"[REDACTED]\", generation: "@
            + text::decimal(generation as nat) + " }"@,
{
}

} // verus!

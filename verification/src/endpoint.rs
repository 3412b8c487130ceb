//! The address and credentials of a running proxy.

use crate::addr;
use crate::addr::{IpAddr, SocketAddr};
use crate::auth;
use crate::auth::{AuthorizationView, ProxyAuthorization};
use crate::crypto;
use crate::instance;
use crate::instance::{InstanceView, ProxyInstanceId};
use crate::text;
use vstd::prelude::*;

verus! {

/// Where a proxy listens and how clients authenticate to it.
pub struct ProxyEndpoint {
    instance: ProxyInstanceId,
    address: SocketAddr,
    authorization: ProxyAuthorization,
}

pub struct EndpointView {
    pub instance: InstanceView,
    pub address: SocketAddr,
    pub authorization: AuthorizationView,
}

impl View for ProxyEndpoint {
    type V = EndpointView;

    closed spec fn view(&self) -> EndpointView {
        EndpointView {
            instance: self.instance@,
            address: self.address,
            authorization: self.authorization@,
        }
    }
}

/// The bits of 127.0.0.1.
pub const LOOPBACK_BITS: u32 = 0x7f00_0001;

impl EndpointView {
    pub open spec fn description(self) -> Seq<char> {
        "ProxyEndpoint { instance: "@ + instance::description(self.instance.generation)
            + ", address: "@ + addr::socket_text(self.address)
            + ", realm: \"[REDACTED]\", username: \"[REDACTED]\", password: \"[REDACTED]\" }"@
    }

    /// The challenge names the IPv4 loopback address, on which the proxy listens,
    /// its port and its realm.
    pub open spec fn is_challenge(self, host: Seq<char>, port: u16, realm: Seq<char>) -> bool {
        &&& addr::socket_ip(self.address) matches IpAddr::V4(ip)
        &&& ip.bits == LOOPBACK_BITS
        &&& port == addr::socket_port(self.address)
        &&& auth::unbracketed(text::trim(host)) == "127.0.0.1"@
        &&& realm == self.authorization.realm
    }
}

impl ProxyEndpoint {
    pub fn new(
        instance: ProxyInstanceId,
        address: SocketAddr,
        authorization: ProxyAuthorization,
    ) -> (r: Self)
        ensures
            r@ == (EndpointView {
                instance: instance@,
                address,
                authorization: authorization@,
            }),
    {
        ProxyEndpoint { instance, address, authorization }
    }

    pub fn instance(&self) -> (r: &ProxyInstanceId)
        ensures
            r@ == self@.instance,
    {
        &self.instance
    }

    pub fn address(&self) -> (r: SocketAddr)
        ensures
            r == self@.address,
    {
        self.address
    }

    pub fn port(&self) -> (r: u16)
        ensures
            r == addr::socket_port(self@.address),
    {
        self.address.port()
    }

    pub fn authorization(&self) -> (r: &ProxyAuthorization)
        ensures
            r@ == self@.authorization,
    {
        &self.authorization
    }

    pub fn realm(&self) -> (r: &str)
        ensures
            r@ == self@.authorization.realm,
    {
        self.authorization.realm()
    }

    pub fn username(&self) -> (r: &str)
        ensures
            r@ == auth::username_text(),
    {
        self.authorization.username()
    }

    pub fn password(&self) -> (r: &str)
        ensures
            r@ == self@.authorization.password,
    {
        self.authorization.password()
    }

    /// The header value with which a client authenticates.
    pub fn authorization_header_value(&self) -> (r: String)
        ensures
            r@ == "Basic "@ + crypto::base64_text(self@.authorization.credentials()),
            self@.authorization.credentials().len() <= auth::MAX_CREDENTIAL_BYTES
                ==> self@.authorization.accepts(r@),
    {
        self.authorization.authorization_header_value()
    }

    /// Whether an authentication challenge came from this proxy.
    pub fn matches_challenge(&self, host: &str, port: u16, realm: &str) -> (r: bool)
        ensures
            r == self@.is_challenge(host@, port, realm@),
    {
        match self.address.ip() {
            IpAddr::V4(ip) => ip.bits == LOOPBACK_BITS && port == self.port()
                && self.authorization.matches_challenge(host, realm),
            IpAddr::V6(_) => false,
        }
    }

    /// A diagnostic description that withholds the session and the credentials.
    pub fn describe(&self) -> (r: String)
        ensures
            r@ == self@.description(),
    {
        let mut v = text::to_chars("ProxyEndpoint { instance: ");
        let i = self.instance.describe();
        text::push_str(&mut v, i.as_str());
        text::push_str(&mut v, ", address: ");
        let a = self.address.to_chars();
        text::push_chars(&mut v, a.as_slice());
        text::push_str(
            &mut v,
            ", realm: \"[REDACTED]\", username: \"[REDACTED]\", password: \"[REDACTED]\" }",
        );
        text::from_chars(v.as_slice())
    }
}

/// A challenge is the proxy's own where it comes from the loopback address and the port that
/// the proxy has, in its own realm.
pub proof fn own_challenges_are_known(e: EndpointView, host: Seq<char>, port: u16, realm: Seq<char>)
    ensures
        ({
            let here = e.address matches SocketAddr::V4 { ip, port: p } && ip.bits == 0x7f00_0001
                && p == port;
            e.is_challenge(host, port, realm) <==> here && auth::unbracketed(text::trim(host))
                == "127.0.0.1"@ && realm == e.authorization.realm
        }),
{
}

/// An endpoint is described by its generation and its address: two with other credentials
/// are described alike.
pub proof fn credentials_are_not_told(a: EndpointView, b: EndpointView)
    ensures
        a.instance.generation == b.instance.generation && a.address == b.address
            ==> a.description() == b.description(),
        a.description() == "ProxyEndpoint { instance: "@ + instance::description(
            a.instance.generation,
        ) + ", address: "@ + addr::socket_text(a.address)
            + ", realm: \"[REDACTED]\", username: \"[REDACTED]\", password: \"[REDACTED]\" }"@,
{
}

} // verus!

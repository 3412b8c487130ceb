//! The limits of the resolver and dialer for ICANN names.

use vstd::prelude::*;

verus! {

/// The most addresses that one name may resolve to.
pub const MAX_RESOLVED_ADDRESSES: usize = 32;

/// A failure that tells nothing of the name or the peer.
#[derive(Clone, Copy, Debug, PartialEq, Eq, Structural)]
pub enum IcannNetworkError {
    Cancelled,
    ResolutionFailed,
    ConnectionFailed,
}

pub open spec fn network_error_text(e: IcannNetworkError) -> Seq<char> {
    match e {
        IcannNetworkError::Cancelled => "ICANN network operation was cancelled"@,
        IcannNetworkError::ResolutionFailed => "ICANN name resolution failed"@,
        IcannNetworkError::ConnectionFailed => "ICANN connection failed"@,
    }
}

impl IcannNetworkError {
    pub fn message(&self) -> (r: &'static str)
        ensures
            r@ == network_error_text(*self),
    {
        match self {
            IcannNetworkError::Cancelled => "ICANN network operation was cancelled",
            IcannNetworkError::ResolutionFailed => "ICANN name resolution failed",
            IcannNetworkError::ConnectionFailed => "ICANN connection failed",
        }
    }
}

/// The network of callers that supply none: every operation fails.
#[derive(Clone, Copy, Debug, PartialEq, Eq, Structural)]
pub struct FailClosedIcannNetwork;

impl FailClosedIcannNetwork {
    /// Why a name does not resolve.
    pub fn resolve(&self, cancelled: bool) -> (r: IcannNetworkError)
        ensures
            r == (if cancelled {
                IcannNetworkError::Cancelled
            } else {
                IcannNetworkError::ResolutionFailed
            }),
    {
        if cancelled {
            IcannNetworkError::Cancelled
        } else {
            IcannNetworkError::ResolutionFailed
        }
    }

    /// Why an address cannot be reached.
    pub fn connect(&self, cancelled: bool) -> (r: IcannNetworkError)
        ensures
            r == (if cancelled {
                IcannNetworkError::Cancelled
            } else {
                IcannNetworkError::ConnectionFailed
            }),
    {
        if cancelled {
            IcannNetworkError::Cancelled
        } else {
            IcannNetworkError::ConnectionFailed
        }
    }
}

/// A network that is closed resolves and connects nothing.
pub proof fn closed_networks_give_nothing(
    n: &FailClosedIcannNetwork,
    cancelled: bool,
    resolved: IcannNetworkError,
    connected: IcannNetworkError,
)
    requires
        call_ensures(FailClosedIcannNetwork::resolve, (n, cancelled), resolved),
        call_ensures(FailClosedIcannNetwork::connect, (n, cancelled), connected),
    ensures
        cancelled ==> resolved is Cancelled && connected is Cancelled,
        !cancelled ==> resolved is ResolutionFailed && connected is ConnectionFailed,
{
}

/// Each failure is told in its own words.
pub proof fn failures_of_the_network_have_their_words(e: IcannNetworkError)
    ensures
        network_error_text(e) == (match e {
            IcannNetworkError::Cancelled => "ICANN network operation was cancelled"@,
            IcannNetworkError::ResolutionFailed => "ICANN name resolution failed"@,
            IcannNetworkError::ConnectionFailed => "ICANN connection failed"@,
        }),
{
}

} // verus!

//! The peers that are known, what is thought of them, and which are tried next.

use crate::addr;
use crate::addr::SocketAddr;
use crate::frame::NetworkParameters;
use crate::packet;
use crate::packet::Height;
use crate::text;
use crate::wire::P2pError;
use vstd::prelude::*;

verus! {

pub const BAN_SCORE: i32 = 100;

pub const MALFORMED_SCORE: i32 = 100;

pub const STALE_TIP_SCORE: i32 = 10;

pub const TRANSIENT_FAILURE_SCORE: i32 = 5;

pub const SUCCESS_REWARD: i32 = 2;

// ---------------------------------------------------------------------
// Endpoints
// ---------------------------------------------------------------------

/// Whether a discovered endpoint may be used: on the public networks only the
/// network's port at a public address, on the development network any real one.
pub open spec fn endpoint_allowed(
    name: Seq<char>,
    port: u16,
    address: SocketAddr,
    publicly_routable: bool,
) -> bool {
    addr::socket_port(address) != 0 && !packet::is_unspecified(addr::socket_ip(address)) && (name
        == "regtest"@ || ((name == "mainnet"@ || name == "testnet"@) && addr::socket_port(address)
        == port && publicly_routable))
}

/// Whether a discovered endpoint may be used. The caller says whether the address
/// can be reached from the public internet.
pub fn is_allowed_peer_endpoint(
    network: &NetworkParameters,
    address: SocketAddr,
    publicly_routable: bool,
) -> (r: bool)
    ensures
        r == endpoint_allowed(network.name@, network.port, address, publicly_routable),
{
    if address.port() == 0 || packet::unspecified(address.ip()) {
        return false;
    }
    let name = network.name.as_str();
    if text::same_text(name, "regtest") {
        return true;
    }
    if text::same_text(name, "mainnet") || text::same_text(name, "testnet") {
        return address.port() == network.port && publicly_routable;
    }
    false
}

// ---------------------------------------------------------------------
// What is known of one peer
// ---------------------------------------------------------------------

#[derive(Clone, Copy, Debug, PartialEq, Eq, Structural)]
pub struct PeerState {
    pub address: SocketAddr,
    pub score: i32,
    pub last_height: Height,
    /// When header synchronisation last took `last_height` for usable. It does not
    /// follow `last_connected_at`: other exchanges with the peer do not make an
    /// old height fresh.
    pub last_height_observed_at: Option<u64>,
    pub last_connected_at: Option<u64>,
    pub banned_until: Option<u64>,
    pub successes: u32,
    pub failures: u32,
}

pub open spec fn fresh(address: SocketAddr) -> PeerState {
    PeerState {
        address,
        score: 0,
        last_height: Height(0),
        last_height_observed_at: None,
        last_connected_at: None,
        banned_until: None,
        successes: 0,
        failures: 0,
    }
}

pub open spec fn banned(p: PeerState, now: u64) -> bool {
    match p.banned_until {
        Some(until) => until > now,
        None => false,
    }
}

impl PeerState {
    pub fn new(address: SocketAddr) -> (r: Self)
        ensures
            r == fresh(address),
    {
        PeerState {
            address,
            score: 0,
            last_height: Height(0),
            last_height_observed_at: None,
            last_connected_at: None,
            banned_until: None,
            successes: 0,
            failures: 0,
        }
    }

    pub fn is_banned(&self, now: u64) -> (r: bool)
        ensures
            r == banned(*self, now),
    {
        match self.banned_until {
            Some(until) => until > now,
            None => false,
        }
    }
}

/// A score after a success: never below zero.
pub open spec fn rewarded(score: i32) -> i32 {
    if score > SUCCESS_REWARD {
        (score - SUCCESS_REWARD) as i32
    } else {
        0
    }
}

/// A score after a failure.
pub open spec fn worsened(score: i32, by: i32) -> i32 {
    if score + by > i32::MAX {
        i32::MAX
    } else {
        (score + by) as i32
    }
}

pub open spec fn counted_up(n: u32) -> u32 {
    if n == u32::MAX {
        n
    } else {
        (n + 1) as u32
    }
}

fn reward(score: i32) -> (r: i32)
    ensures
        r == rewarded(score),
{
    if score > SUCCESS_REWARD {
        score - SUCCESS_REWARD
    } else {
        0
    }
}

fn worsen(score: i32, by: i32) -> (r: i32)
    requires
        by >= 0,
    ensures
        r == worsened(score, by),
{
    if score > i32::MAX - by {
        i32::MAX
    } else {
        score + by
    }
}

fn count_up(n: u32) -> (r: u32)
    ensures
        r == counted_up(n),
{
    if n == u32::MAX {
        n
    } else {
        n + 1
    }
}

/// Chain success: rewards the peer and takes its height for usable.
pub open spec fn after_success(p: PeerState, height: Height, now: u64) -> PeerState {
    PeerState {
        score: rewarded(p.score),
        last_height: height,
        last_height_observed_at: Some(now),
        last_connected_at: Some(now),
        successes: counted_up(p.successes),
        ..p
    }
}

pub open spec fn after_observation(p: PeerState, height: Height, now: u64) -> PeerState {
    PeerState {
        last_height: height,
        last_height_observed_at: Some(now),
        last_connected_at: Some(now),
        ..p
    }
}

pub open spec fn without_height(p: PeerState) -> PeerState {
    PeerState { last_height: Height(0), last_height_observed_at: None, ..p }
}

pub open spec fn after_connection(p: PeerState, now: u64) -> PeerState {
    PeerState { last_connected_at: Some(now), ..p }
}

/// Transport success: rewards the peer and leaves its height alone.
pub open spec fn after_transport_success(p: PeerState, now: u64) -> PeerState {
    PeerState {
        score: rewarded(p.score),
        last_connected_at: Some(now),
        successes: counted_up(p.successes),
        ..p
    }
}

pub open spec fn after_transient_failure(p: PeerState) -> PeerState {
    PeerState {
        score: worsened(p.score, TRANSIENT_FAILURE_SCORE),
        failures: counted_up(p.failures),
        ..p
    }
}

/// A penalty, and a ban where the score is then high enough and one is asked for.
pub open spec fn penalized(p: PeerState, by: i32, until: Option<u64>) -> PeerState {
    let score = worsened(p.score, by);
    PeerState {
        score,
        banned_until: if score >= BAN_SCORE && until is Some {
            until
        } else {
            p.banned_until
        },
        ..p
    }
}

pub open spec fn ban_end(now: u64, seconds: u64) -> u64 {
    if now + seconds > u64::MAX {
        u64::MAX
    } else {
        (now + seconds) as u64
    }
}

// ---------------------------------------------------------------------
// All peers
// ---------------------------------------------------------------------

/// States by address; a later state replaces an earlier one.
pub open spec fn by_address(states: Seq<PeerState>) -> Map<SocketAddr, PeerState>
    decreases states.len(),
{
    if states.len() == 0 {
        Map::empty()
    } else {
        by_address(states.drop_last()).insert(states.last().address, states.last())
    }
}

pub open spec fn addresses_differ(states: Seq<PeerState>) -> bool {
    forall|i: int, j: int|
        0 <= i < j < states.len() ==> (#[trigger] states[i]).address != (
        #[trigger] states[j]).address
}

/// What is known of a peer, or what is assumed of a new one.
pub open spec fn known_or_fresh(m: Map<SocketAddr, PeerState>, a: SocketAddr) -> PeerState {
    if m.contains_key(a) {
        m[a]
    } else {
        fresh(a)
    }
}

/// Peers after some addresses were made known, and how many of them were new.
pub open spec fn seeded(m: Map<SocketAddr, PeerState>, addresses: Seq<SocketAddr>) -> (
    Map<SocketAddr, PeerState>,
    nat,
)
    decreases addresses.len(),
{
    if addresses.len() == 0 {
        (m, 0)
    } else {
        let (before, n) = seeded(m, addresses.drop_last());
        let a = addresses.last();
        if before.contains_key(a) {
            (before, n)
        } else {
            (before.insert(a, fresh(a)), n + 1)
        }
    }
}

/// What is known under an address is a state with that address.
pub proof fn lemma_by_address(states: Seq<PeerState>)
    ensures
        forall|i: int|
            0 <= i < states.len() ==> #[trigger] by_address(states).contains_key(
                states[i].address,
            ),
        forall|a: SocketAddr| #[trigger]
            by_address(states).contains_key(a) ==> exists|i: int|
                0 <= i < states.len() && states[i].address == a && states[i] == by_address(
                    states,
                )[a],
        addresses_differ(states) ==> forall|i: int|
            0 <= i < states.len() ==> #[trigger] by_address(states)[states[i].address] == states[i],
        by_address(states).dom().finite(),
        addresses_differ(states) ==> by_address(states).len() == states.len(),
    decreases states.len(),
{
    if states.len() > 0 {
        let front = states.drop_last();
        lemma_by_address(front);
        let m = by_address(states);
        assert forall|i: int| 0 <= i < states.len() implies #[trigger] m.contains_key(
            states[i].address,
        ) by {
            if i < front.len() {
                assert(front[i] == states[i]);
                assert(by_address(front).contains_key(front[i].address));
            }
        }
        assert forall|a: SocketAddr| #[trigger] m.contains_key(a) implies exists|i: int|
            0 <= i < states.len() && states[i].address == a && states[i] == m[a] by {
            if a == states.last().address {
                assert(states[states.len() - 1] == m[a]);
            } else {
                assert(by_address(front).contains_key(a));
                let i = choose|i: int|
                    0 <= i < front.len() && front[i].address == a && front[i] == by_address(
                        front,
                    )[a];
                assert(states[i] == front[i]);
            }
        }
        if addresses_differ(states) {
            assert(addresses_differ(front)) by {
                assert forall|i: int, j: int| 0 <= i < j < front.len() implies (
                #[trigger] front[i]).address != (#[trigger] front[j]).address by {
                    assert(front[i] == states[i] && front[j] == states[j]);
                }
            }
            assert forall|i: int| 0 <= i < states.len() implies #[trigger] m[states[i].address]
                == states[i] by {
                if i < front.len() {
                    assert(front[i] == states[i]);
                    assert(states[i].address != states[states.len() - 1].address);
                    assert(by_address(front)[front[i].address] == front[i]);
                }
            }
            assert(!by_address(front).contains_key(states.last().address)) by {
                if by_address(front).contains_key(states.last().address) {
                    let i = choose|i: int|
                        0 <= i < front.len() && front[i].address == states.last().address
                            && front[i] == by_address(front)[states.last().address];
                    assert(states[i] == front[i]);
                    assert(states[i].address != states[states.len() - 1].address);
                }
            }
        }
    }
}

/// A peer's new state takes the place of its old one.
proof fn lemma_update(states: Seq<PeerState>, i: int, p: PeerState)
    requires
        addresses_differ(states),
        0 <= i < states.len(),
        p.address == states[i].address,
    ensures
        addresses_differ(states.update(i, p)),
        by_address(states.update(i, p)) == by_address(states).insert(p.address, p),
{
    let after = states.update(i, p);
    assert forall|j: int, k: int| 0 <= j < k < after.len() implies (#[trigger] after[j]).address
        != (#[trigger] after[k]).address by {
        assert(states[j].address != states[k].address);
    }
    lemma_by_address(states);
    lemma_by_address(after);
    let m = by_address(after);
    let n = by_address(states).insert(p.address, p);
    assert forall|a: SocketAddr|
        #![trigger m.contains_key(a)]
        #![trigger n.contains_key(a)]
        m.contains_key(a) == n.contains_key(a) && (m.contains_key(a) ==> m[a] == n[a]) by {
        if m.contains_key(a) {
            let k = choose|k: int|
                0 <= k < after.len() && after[k].address == a && after[k] == m[a];
            assert(by_address(states).contains_key(states[k].address));
            assert(by_address(states)[states[k].address] == states[k]);
            if k != i {
                assert(states[k] == after[k]);
                if k < i {
                    assert(after[k].address != after[i].address);
                } else {
                    assert(after[i].address != after[k].address);
                }
            }
        }
        if n.contains_key(a) {
            if a == p.address {
                assert(m.contains_key(after[i].address));
            } else {
                let k = choose|k: int|
                    0 <= k < states.len() && states[k].address == a && states[k] == by_address(
                        states,
                    )[a];
                assert(after[k] == states[k]);
                assert(m.contains_key(after[k].address));
            }
        }
    }
    assert(m.dom() =~= n.dom()) by {
        assert forall|a: SocketAddr| #[trigger] m.dom().contains(a) <==> n.dom().contains(a) by {
            assert(m.contains_key(a) == n.contains_key(a));
        }
    }
    assert forall|a: SocketAddr| #[trigger] m.dom().contains(a) implies m[a] == n[a] by {
        assert(m.contains_key(a));
    }
    assert(m =~= n);
}

/// The peers that are known, each once.
#[derive(Debug)]
pub struct PeerManager {
    peers: Vec<PeerState>,
}

impl View for PeerManager {
    type V = Map<SocketAddr, PeerState>;

    closed spec fn view(&self) -> Map<SocketAddr, PeerState> {
        by_address(self.peers@)
    }
}

impl Default for PeerManager {
    fn default() -> (r: Self)
        ensures
            r@ == Map::<SocketAddr, PeerState>::empty(),
            r.wf(),
    {
        PeerManager { peers: Vec::new() }
    }
}

impl PeerManager {
    pub closed spec fn wf(self) -> bool {
        addresses_differ(self.peers@)
    }

    pub fn from_states(states: Vec<PeerState>) -> (r: Self)
        ensures
            r@ == by_address(states@),
            r.wf(),
    {
        let mut m = PeerManager { peers: Vec::new() };
        let mut i: usize = 0;
        assert(states@.take(0) == Seq::<PeerState>::empty());
        while i < states.len()
            invariant
                i <= states@.len(),
                m.wf(),
                m@ == by_address(states@.take(i as int)),
            decreases states@.len() - i,
        {
            assert(states@.take(i as int + 1).drop_last() == states@.take(i as int));
            m.put(states[i]);
            i += 1;
        }
        assert(states@.take(i as int) == states@);
        m
    }

    fn find(&self, address: SocketAddr) -> (r: Option<usize>)
        requires
            self.wf(),
        ensures
            match r {
                Some(i) => i < self.peers@.len() && self.peers@[i as int].address == address
                    && self@.contains_key(address) && self@[address] == self.peers@[i as int],
                None => !self@.contains_key(address) && forall|j: int|
                    0 <= j < self.peers@.len() ==> (#[trigger] self.peers@[j]).address != address,
            },
    {
        proof {
            lemma_by_address(self.peers@);
        }
        let mut i: usize = 0;
        while i < self.peers.len()
            invariant
                i <= self.peers@.len(),
                addresses_differ(self.peers@),
                self@ == by_address(self.peers@),
                forall|j: int| 0 <= j < i ==> (#[trigger] self.peers@[j]).address != address,
            decreases self.peers@.len() - i,
        {
            if self.peers[i].address == address {
                proof {
                    lemma_by_address(self.peers@);
                    assert(self@.contains_key(self.peers@[i as int].address));
                    assert(self@[self.peers@[i as int].address] == self.peers@[i as int]);
                }
                return Some(i);
            }
            i += 1;
        }
        None
    }

    /// Sets the state of the peer at the state's address.
    fn put(&mut self, p: PeerState)
        requires
            old(self).wf(),
        ensures
            final(self).wf(),
            final(self)@ == old(self)@.insert(p.address, p),
    {
        match self.find(p.address) {
            Some(i) => {
                proof {
                    lemma_update(self.peers@, i as int, p);
                }
                self.peers.set(i, p);
            },
            None => {
                let ghost before = self.peers@;
                self.peers.push(p);
                assert(self.peers@.drop_last() == before);
            },
        }
    }

    /// What is known of a peer, or what is assumed of a new one.
    fn state_of(&self, address: SocketAddr) -> (r: PeerState)
        requires
            self.wf(),
        ensures
            r == known_or_fresh(self@, address),
            r.address == address,
    {
        match self.find(address) {
            Some(i) => self.peers[i],
            None => PeerState::new(address),
        }
    }

    /// Makes an address known, and gives its state for a change that leaves the
    /// address as it is.
    pub fn upsert(&mut self, address: SocketAddr) -> (r: &mut PeerState)
        requires
            old(self).wf(),
        ensures
            *r == known_or_fresh(old(self)@, address),
            final(r).address == address ==> final(self).wf() && final(self)@ == old(
                self,
            )@.insert(address, *final(r)),
    {
        let index: usize = match self.find(address) {
            Some(i) => i,
            None => {
                let ghost before = self.peers@;
                self.peers.push(PeerState::new(address));
                proof {
                    assert(self.peers@.drop_last() == before);
                    lemma_by_address(self.peers@);
                }
                self.peers.len() - 1
            },
        };
        proof {
            let before = self.peers@;
            lemma_by_address(before);
            assert forall|p: PeerState| p.address == address implies {
                &&& addresses_differ(#[trigger] before.update(index as int, p))
                &&& by_address(before.update(index as int, p)) == old(self)@.insert(address, p)
            } by {
                lemma_update(before, index as int, p);
                assert(by_address(before).insert(address, p) =~= old(self)@.insert(address, p));
            }
        }
        &mut self.peers[index]
    }

    pub fn seed(&mut self, addresses: &[SocketAddr]) -> (r: usize)
        requires
            old(self).wf(),
        ensures
            final(self).wf(),
            (final(self)@, r as nat) == seeded(old(self)@, addresses@),
    {
        let mut inserted: usize = 0;
        let mut i: usize = 0;
        assert(addresses@.take(0) == Seq::<SocketAddr>::empty());
        while i < addresses.len()
            invariant
                i <= addresses@.len(),
                self.wf(),
                inserted <= i,
                (self@, inserted as nat) == seeded(old(self)@, addresses@.take(i as int)),
            decreases addresses@.len() - i,
        {
            assert(addresses@.take(i as int + 1).drop_last() == addresses@.take(i as int));
            let a = addresses[i];
            match self.find(a) {
                Some(_) => {},
                None => {
                    inserted += 1;
                    self.put(PeerState::new(a));
                },
            }
            i += 1;
        }
        assert(addresses@.take(i as int) == addresses@);
        inserted
    }

    /// Seeds from what a source found.
    pub fn seed_found(&mut self, found: Result<Vec<SocketAddr>, P2pError>) -> (r: Result<
        usize,
        P2pError,
    >)
        requires
            old(self).wf(),
        ensures
            final(self).wf(),
            match found {
                Ok(addresses) => r is Ok && (final(self)@, r->Ok_0 as nat) == seeded(
                    old(self)@,
                    addresses@,
                ),
                Err(e) => r == Err::<usize, P2pError>(e) && final(self)@ == old(self)@,
            },
    {
        match found {
            Ok(addresses) => Ok(self.seed(addresses.as_slice())),
            Err(e) => Err(e),
        }
    }

    /// Seeds from what a source finds, where it finds anything.
    pub fn seed_from<S: PeerSource>(&mut self, source: &S) -> (r: Result<usize, P2pError>)
        requires
            old(self).wf(),
        ensures
            final(self).wf(),
            exists|found: Result<Vec<SocketAddr>, P2pError>| #[trigger]
                call_ensures(S::discover, (source,), found) && match found {
                    Ok(addresses) => r is Ok && (final(self)@, r->Ok_0 as nat) == seeded(
                        old(self)@,
                        addresses@,
                    ),
                    Err(e) => r == Err::<usize, P2pError>(e) && final(self)@ == old(self)@,
                },
    {
        self.seed_found(source.discover())
    }

    /// Header synchronisation with the peer succeeded up to a height that it may
    /// vouch for.
    pub fn record_success(&mut self, address: SocketAddr, height: Height, now: u64)
        requires
            old(self).wf(),
        ensures
            final(self).wf(),
            final(self)@ == old(self)@.insert(
                address,
                after_success(known_or_fresh(old(self)@, address), height, now),
            ),
    {
        let mut p = self.state_of(address);
        p.score = reward(p.score);
        p.last_height = height;
        p.last_height_observed_at = Some(now);
        p.last_connected_at = Some(now);
        p.successes = count_up(p.successes);
        self.put(p);
    }

    /// Header synchronisation saw a height.
    pub fn record_observed_height(&mut self, address: SocketAddr, height: Height, now: u64)
        requires
            old(self).wf(),
        ensures
            final(self).wf(),
            final(self)@ == old(self)@.insert(
                address,
                after_observation(known_or_fresh(old(self)@, address), height, now),
            ),
    {
        let mut p = self.state_of(address);
        p.last_height = height;
        p.last_height_observed_at = Some(now);
        p.last_connected_at = Some(now);
        self.put(p);
    }

    pub fn clear_observed_height(&mut self, address: SocketAddr)
        requires
            old(self).wf(),
        ensures
            final(self).wf(),
            final(self)@ == old(self)@.insert(
                address,
                without_height(known_or_fresh(old(self)@, address)),
            ),
    {
        let mut p = self.state_of(address);
        p.last_height = Height(0);
        p.last_height_observed_at = None;
        self.put(p);
    }

    pub fn record_connection(&mut self, address: SocketAddr, now: u64)
        requires
            old(self).wf(),
        ensures
            final(self).wf(),
            final(self)@ == old(self)@.insert(
                address,
                after_connection(known_or_fresh(old(self)@, address), now),
            ),
    {
        let mut p = self.state_of(address);
        p.last_connected_at = Some(now);
        self.put(p);
    }

    /// An exchange that is not about the chain succeeded.
    pub fn record_transport_success(&mut self, address: SocketAddr, now: u64)
        requires
            old(self).wf(),
        ensures
            final(self).wf(),
            final(self)@ == old(self)@.insert(
                address,
                after_transport_success(known_or_fresh(old(self)@, address), now),
            ),
    {
        let mut p = self.state_of(address);
        p.score = reward(p.score);
        p.last_connected_at = Some(now);
        p.successes = count_up(p.successes);
        self.put(p);
    }

    pub fn record_transient_failure(&mut self, address: SocketAddr)
        requires
            old(self).wf(),
        ensures
            final(self).wf(),
            final(self)@ == old(self)@.insert(
                address,
                after_transient_failure(known_or_fresh(old(self)@, address)),
            ),
    {
        let mut p = self.state_of(address);
        p.score = worsen(p.score, TRANSIENT_FAILURE_SCORE);
        p.failures = count_up(p.failures);
        self.put(p);
    }

    pub fn record_stale_tip(&mut self, address: SocketAddr)
        requires
            old(self).wf(),
        ensures
            final(self).wf(),
            final(self)@ == old(self)@.insert(
                address,
                penalized(known_or_fresh(old(self)@, address), STALE_TIP_SCORE, None),
            ),
    {
        self.penalize(address, STALE_TIP_SCORE, None);
    }

    pub fn record_malformed(&mut self, address: SocketAddr, now: u64, ban_seconds: u64)
        requires
            old(self).wf(),
        ensures
            final(self).wf(),
            final(self)@ == old(self)@.insert(
                address,
                penalized(
                    known_or_fresh(old(self)@, address),
                    MALFORMED_SCORE,
                    Some(ban_end(now, ban_seconds)),
                ),
            ),
    {
        let until: u64 = if now > u64::MAX - ban_seconds {
            u64::MAX
        } else {
            now + ban_seconds
        };
        self.penalize(address, MALFORMED_SCORE, Some(until));
    }

    fn penalize(&mut self, address: SocketAddr, score: i32, banned_until: Option<u64>)
        requires
            old(self).wf(),
            score >= 0,
        ensures
            final(self).wf(),
            final(self)@ == old(self)@.insert(
                address,
                penalized(known_or_fresh(old(self)@, address), score, banned_until),
            ),
    {
        let mut p = self.state_of(address);
        p.score = worsen(p.score, score);
        if p.score >= BAN_SCORE && banned_until.is_some() {
            p.banned_until = banned_until;
        }
        self.put(p);
    }

    pub fn get(&self, address: SocketAddr) -> (r: Option<&PeerState>)
        requires
            self.wf(),
        ensures
            match r {
                Some(p) => self@.contains_key(address) && *p == self@[address],
                None => !self@.contains_key(address),
            },
    {
        match self.find(address) {
            Some(i) => Some(&self.peers[i]),
            None => None,
        }
    }

    /// Every known peer once, in no particular order.
    pub fn iter(&self) -> (r: &[PeerState])
        requires
            self.wf(),
        ensures
            addresses_differ(r@),
            by_address(r@) == self@,
    {
        self.peers.as_slice()
    }

    pub fn len(&self) -> (r: usize)
        requires
            self.wf(),
        ensures
            r == self@.len(),
            self@.dom().finite(),
    {
        proof {
            lemma_by_address(self.peers@);
        }
        self.peers.len()
    }

    pub fn is_empty(&self) -> (r: bool)
        requires
            self.wf(),
        ensures
            r == (self@ == Map::<SocketAddr, PeerState>::empty()),
    {
        proof {
            lemma_by_address(self.peers@);
            if self.peers@.len() > 0 {
                assert(self@.contains_key(self.peers@[0].address));
            }
        }
        self.peers.len() == 0
    }
}

impl PeerManager {
    /// What is known under an address is of the peer at that address.
    pub proof fn lemma_addresses(&self)
        requires
            self.wf(),
        ensures
            forall|a: SocketAddr| #[trigger] self@.contains_key(a) ==> self@[a].address == a,
    {
        lemma_by_address(self.peers@);
        assert forall|a: SocketAddr| #[trigger] self@.contains_key(a) implies self@[a].address
            == a by {
            let i = choose|i: int|
                0 <= i < self.peers@.len() && self.peers@[i].address == a && self.peers@[i]
                    == by_address(self.peers@)[a];
        }
    }

    /// Forgets the peers that are not to be kept; gives how many.
    pub fn retain(&mut self, keep: impl Fn(&PeerState) -> bool) -> (r: usize)
        requires
            old(self).wf(),
            forall|p: &PeerState| #[trigger] call_requires(keep, (p,)),
        ensures
            final(self).wf(),
            r == old(self)@.len() - final(self)@.len(),
            forall|a: SocketAddr| #[trigger]
                final(self)@.contains_key(a) ==> old(self)@.contains_key(a) && final(self)@[a]
                    == old(self)@[a] && call_ensures(keep, (&old(self)@[a],), true),
            forall|a: SocketAddr|
                old(self)@.contains_key(a) && !(#[trigger] final(self)@.contains_key(a))
                    ==> call_ensures(keep, (&old(self)@[a],), false),
    {
        let ghost before = self.peers@;
        let mut kept: Vec<PeerState> = Vec::new();
        let mut i: usize = 0;
        while i < self.peers.len()
            invariant
                i <= self.peers@.len(),
                self.peers@ == before,
                addresses_differ(before),
                kept@.len() <= i,
                addresses_differ(kept@),
                forall|p: &PeerState| #[trigger] call_requires(keep, (p,)),
                forall|k: int|
                    0 <= k < kept@.len() ==> exists|j: int|
                        0 <= j < i && #[trigger] before[j] == #[trigger] kept@[k],
                forall|k: int|
                    0 <= k < kept@.len() ==> call_ensures(keep, (&#[trigger] kept@[k],), true),
                forall|j: int|
                    0 <= j < i ==> (exists|k: int|
                        0 <= k < kept@.len() && #[trigger] kept@[k] == before[j]) || call_ensures(
                        keep,
                        (&#[trigger] before[j],),
                        false,
                    ),
            decreases self.peers@.len() - i,
        {
            let p = self.peers[i];
            let ghost held = kept@;
            if keep(&p) {
                kept.push(p);
                proof {
                    assert(kept@[held.len() as int] == before[i as int]);
                    assert forall|k: int, l: int| 0 <= k < l < kept@.len() implies (
                    #[trigger] kept@[k]).address != (#[trigger] kept@[l]).address by {
                        assert(kept@[k] == held[k]);
                        let j = choose|j: int| 0 <= j < i && #[trigger] before[j] == held[k];
                        if l < held.len() {
                            assert(kept@[l] == held[l]);
                        } else {
                            assert(before[j].address != before[i as int].address);
                        }
                    }
                    assert forall|j: int| 0 <= j < i implies (exists|k: int|
                        0 <= k < kept@.len() && #[trigger] kept@[k] == before[j]) || call_ensures(
                        keep,
                        (&#[trigger] before[j],),
                        false,
                    ) by {
                        if exists|k: int| 0 <= k < held.len() && #[trigger] held[k] == before[j] {
                            let k = choose|k: int|
                                0 <= k < held.len() && #[trigger] held[k] == before[j];
                            assert(kept@[k] == before[j]);
                        }
                    }
                }
            }
            i += 1;
        }
        proof {
            lemma_by_address(before);
            lemma_by_address(kept@);
            let m = by_address(before);
            let n = by_address(kept@);
            assert forall|a: SocketAddr| #[trigger] n.contains_key(a) implies m.contains_key(a)
                && n[a] == m[a] && call_ensures(keep, (&m[a],), true) by {
                let k = choose|k: int|
                    0 <= k < kept@.len() && kept@[k].address == a && kept@[k] == n[a];
                let j = choose|j: int| 0 <= j < i && #[trigger] before[j] == kept@[k];
                assert(m.contains_key(before[j].address));
                assert(m[before[j].address] == before[j]);
            }
            assert forall|a: SocketAddr|
                m.contains_key(a) && !(#[trigger] n.contains_key(a)) implies call_ensures(
                keep,
                (&m[a],),
                false,
            ) by {
                let j = choose|j: int|
                    0 <= j < before.len() && before[j].address == a && before[j] == m[a];
                if exists|k: int| 0 <= k < kept@.len() && #[trigger] kept@[k] == before[j] {
                    let k = choose|k: int| 0 <= k < kept@.len() && #[trigger] kept@[k] == before[j];
                    assert(n.contains_key(kept@[k].address));
                }
            }
        }
        let removed: usize = self.peers.len() - kept.len();
        self.peers = kept;
        removed
    }
}

/// Where addresses of peers come from.
pub trait PeerSource {
    fn discover(&self) -> Result<Vec<SocketAddr>, P2pError>;
}

// ---------------------------------------------------------------------
// Laws
// ---------------------------------------------------------------------

/// Nothing but header synchronisation touches the height of a peer and when it
/// was seen.
pub proof fn transport_leaves_heights_alone(p: PeerState, now: u64, by: i32, until: Option<u64>)
    ensures
        after_connection(p, now).last_height == p.last_height,
        after_connection(p, now).last_height_observed_at == p.last_height_observed_at,
        after_transport_success(p, now).last_height == p.last_height,
        after_transport_success(p, now).last_height_observed_at == p.last_height_observed_at,
        after_transient_failure(p).last_height == p.last_height,
        after_transient_failure(p).last_height_observed_at == p.last_height_observed_at,
        penalized(p, by, until).last_height == p.last_height,
        penalized(p, by, until).last_height_observed_at == p.last_height_observed_at,
{
}

/// One malformed message from a peer in good standing bans it at once; stale tips
/// and transient failures never do.
pub proof fn only_malformed_messages_ban(p: PeerState, now: u64, seconds: u64)
    ensures
        p.score >= 0 ==> penalized(p, MALFORMED_SCORE, Some(ban_end(now, seconds))).banned_until
            == Some(ban_end(now, seconds)),
        penalized(p, STALE_TIP_SCORE, None).banned_until == p.banned_until,
        after_transient_failure(p).banned_until == p.banned_until,
{
}

/// What is known of a peer never changes where it is.
pub proof fn addresses_stay(
    p: PeerState,
    height: Height,
    now: u64,
    by: i32,
    until: Option<u64>,
)
    ensures
        after_success(p, height, now).address == p.address,
        after_observation(p, height, now).address == p.address,
        without_height(p).address == p.address,
        after_connection(p, now).address == p.address,
        after_transport_success(p, now).address == p.address,
        after_transient_failure(p).address == p.address,
        penalized(p, by, until).address == p.address,
{
}

/// A peer may be connected to where it has a port and an address. On the public networks
/// the port must be that of the network and the address public; a local network takes any.
pub proof fn endpoints_are_allowed_by_network(
    name: Seq<char>,
    port: u16,
    address: SocketAddr,
    publicly_routable: bool,
)
    ensures
        ({
            let given = match address {
                SocketAddr::V4 { ip, port } => ip.bits != 0 && port != 0,
                SocketAddr::V6 { ip, port, .. } => ip.bits != 0 && port != 0,
            };
            let usual = match address {
                SocketAddr::V4 { port: p, .. } => p == port,
                SocketAddr::V6 { port: p, .. } => p == port,
            };
            endpoint_allowed(name, port, address, publicly_routable) <==> given && (name
                == "regtest"@ || (name == "mainnet"@ || name == "testnet"@) && usual
                && publicly_routable)
        }),
{
}

/// A success takes two off the score, down to zero, counts, and notes the height and the
/// time; an observation notes these only, and a connection only the time. A transport
/// success does all but for the height. Nothing else of a peer changes.
pub proof fn successes_are_recorded(p: PeerState, height: Height, now: u64)
    ensures
        ({
            let score = if p.score > 2 {
                p.score - 2
            } else {
                0
            };
            let successes = if p.successes < u32::MAX {
                p.successes + 1
            } else {
                p.successes as int
            };
            let a = after_success(p, height, now);
            let t = after_transport_success(p, now);
            &&& a == (PeerState {
                score: score as i32,
                last_height: height,
                last_height_observed_at: Some(now),
                last_connected_at: Some(now),
                successes: successes as u32,
                ..p
            })
            &&& t == (PeerState {
                score: score as i32,
                last_connected_at: Some(now),
                successes: successes as u32,
                ..p
            })
            &&& after_observation(p, height, now) == (PeerState {
                last_height: height,
                last_height_observed_at: Some(now),
                last_connected_at: Some(now),
                ..p
            })
            &&& after_connection(p, now) == (PeerState { last_connected_at: Some(now), ..p })
            &&& without_height(p) == (PeerState {
                last_height: Height(0),
                last_height_observed_at: None,
                ..p
            })
        }),
{
}

/// A failed transport adds five to the score and counts; a stale tip adds ten, a malformed
/// message a hundred. From a hundred on the last of these bans, for the time that was
/// asked for. A peer is banned up to the end of its ban.
pub proof fn failures_are_recorded(p: PeerState, now: u64, seconds: u64)
    requires
        p.score + 100 <= i32::MAX,
    ensures
        after_transient_failure(p) == (PeerState {
            score: (p.score + 5) as i32,
            failures: if p.failures < u32::MAX {
                (p.failures + 1) as u32
            } else {
                p.failures
            },
            ..p
        }),
        penalized(p, STALE_TIP_SCORE, None) == (PeerState { score: (p.score + 10) as i32, ..p }),
        penalized(p, MALFORMED_SCORE, Some(ban_end(now, seconds))) == (PeerState {
            score: (p.score + 100) as i32,
            banned_until: if p.score >= 0 {
                Some(ban_end(now, seconds))
            } else {
                p.banned_until
            },
            ..p
        }),
        now + seconds <= u64::MAX ==> ban_end(now, seconds) == now + seconds,
        now + seconds > u64::MAX ==> ban_end(now, seconds) == u64::MAX,
        banned(p, now) <==> (p.banned_until matches Some(until) && now < until),
{
}

/// A new peer has nothing for or against it.
pub proof fn new_peers_are_unmarked(address: SocketAddr)
    ensures
        fresh(address) == (PeerState {
            address,
            score: 0,
            last_height: Height(0),
            last_height_observed_at: None,
            last_connected_at: None,
            banned_until: None,
            successes: 0,
            failures: 0,
        }),
{
}

/// Seeding makes every address known and forgets none. What was known stays as it is, what
/// was not is unmarked, and the new ones are counted.
pub proof fn seeds_become_known(m: Map<SocketAddr, PeerState>, addresses: Seq<SocketAddr>)
    requires
        m.dom().finite(),
    ensures
        ({
            let (after, n) = seeded(m, addresses);
            &&& forall|a: SocketAddr| #[trigger]
                after.contains_key(a) <==> m.contains_key(a) || addresses.contains(a)
            &&& forall|a: SocketAddr| #[trigger] m.contains_key(a) ==> after[a] == m[a]
            &&& forall|a: SocketAddr| #[trigger]
                after.contains_key(a) && !m.contains_key(a) ==> after[a] == fresh(a)
            &&& after.dom().finite() && after.dom().len() == m.dom().len() + n
        }),
    decreases addresses.len(),
{
    if addresses.len() > 0 {
        let front = addresses.drop_last();
        let last = addresses.last();
        seeds_become_known(m, front);
        let (after, n) = seeded(m, addresses);
        assert forall|a: SocketAddr| #[trigger] addresses.contains(a) <==> front.contains(a) || a
            == last by {
            if addresses.contains(a) {
                let i = choose|i: int| 0 <= i < addresses.len() && addresses[i] == a;
                if i < front.len() {
                    assert(front[i] == a);
                }
            }
            if front.contains(a) {
                let i = choose|i: int| 0 <= i < front.len() && front[i] == a;
                assert(addresses[i] == a);
            }
            assert(addresses[addresses.len() - 1] == last);
        }
        let before = seeded(m, front).0;
        if !before.contains_key(last) {
            assert(after.dom() =~= before.dom().insert(last));
        }
        assert forall|a: SocketAddr| #[trigger]
            after.contains_key(a) <==> m.contains_key(a) || addresses.contains(a) by {
            assert(before.contains_key(a) <==> m.contains_key(a) || front.contains(a));
        }
    }
}

/// Endpoints are allowed by the name and the port of the network.
pub proof fn endpoints_are_of_the_network(
    network: &NetworkParameters,
    address: SocketAddr,
    publicly_routable: bool,
    r: bool,
)
    requires
        call_ensures(is_allowed_peer_endpoint, (network, address, publicly_routable), r),
    ensures
        r == endpoint_allowed(network.name@, network.port, address, publicly_routable),
{
}

} // verus!

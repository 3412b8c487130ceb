//! Which peers are tried, and in what order.

use crate::addr;
use crate::addr::{IpAddr, SocketAddr};
use crate::peers;
use crate::peers::{PeerManager, PeerState};
use crate::relay::EXPERIMENTAL_DNS_RELAY_SERVICE;
use crate::wire;
use vstd::prelude::*;

verus! {

// ---------------------------------------------------------------------
// Address groups
// ---------------------------------------------------------------------

/// The part of the internet that an address lies in.
#[derive(Clone, Copy, Debug, Hash, PartialEq, Eq, PartialOrd, Ord)]
pub enum PeerAddressGroup {
    Ipv4([u8; 2]),
    Ipv6([u8; 4]),
}

#[verifier::ext_equal]
pub enum GroupView {
    Ipv4(Seq<u8>),
    Ipv6(Seq<u8>),
}

impl View for PeerAddressGroup {
    type V = GroupView;

    open spec fn view(&self) -> GroupView {
        match *self {
            PeerAddressGroup::Ipv4(b) => GroupView::Ipv4(b@),
            PeerAddressGroup::Ipv6(b) => GroupView::Ipv6(b@),
        }
    }
}

/// The first two octets of an IPv4 address, the first four of an IPv6 address.
pub open spec fn group_of(address: SocketAddr) -> GroupView {
    let ip = addr::socket_ip(address);
    match ip {
        IpAddr::V4(_) => GroupView::Ipv4(wire::ip_bytes(ip).subrange(12, 14)),
        IpAddr::V6(_) => GroupView::Ipv6(wire::ip_bytes(ip).subrange(0, 4)),
    }
}

impl PeerAddressGroup {
    pub fn from_socket_addr(address: SocketAddr) -> (r: Self)
        ensures
            r@ == group_of(address),
    {
        let ip = address.ip();
        let mut v: Vec<u8> = Vec::new();
        wire::push_ip(&mut v, ip);
        proof {
            wire::lemma_ip_bytes_len(ip);
            assert(v@ =~= wire::ip_bytes(ip));
        }
        match ip {
            IpAddr::V4(_) => {
                let b: [u8; 2] = [v[12], v[13]];
                assert(b@ =~= v@.subrange(12, 14));
                PeerAddressGroup::Ipv4(b)
            },
            IpAddr::V6(_) => {
                let b: [u8; 4] = [v[0], v[1], v[2], v[3]];
                assert(b@ =~= v@.subrange(0, 4));
                PeerAddressGroup::Ipv6(b)
            },
        }
    }

    pub fn same(&self, other: &PeerAddressGroup) -> (r: bool)
        ensures
            r == (self@ == other@),
    {
        match (self, other) {
            (PeerAddressGroup::Ipv4(a), PeerAddressGroup::Ipv4(b)) => {
                let r = a[0] == b[0] && a[1] == b[1];
                assert(r ==> a@ =~= b@);
                r
            },
            (PeerAddressGroup::Ipv6(a), PeerAddressGroup::Ipv6(b)) => {
                let r = a[0] == b[0] && a[1] == b[1] && a[2] == b[2] && a[3] == b[3];
                assert(r ==> a@ =~= b@);
                r
            },
            _ => false,
        }
    }
}

pub open spec fn group_views(groups: Seq<PeerAddressGroup>) -> Seq<GroupView> {
    groups.map_values(|g: PeerAddressGroup| g@)
}

fn holds_group(groups: &Vec<PeerAddressGroup>, g: &PeerAddressGroup) -> (r: bool)
    ensures
        r == group_views(groups@).contains(g@),
{
    let ghost views = group_views(groups@);
    let mut i: usize = 0;
    while i < groups.len()
        invariant
            i <= groups@.len(),
            views == group_views(groups@),
            forall|j: int| 0 <= j < i ==> #[trigger] views[j] != g@,
        decreases groups@.len() - i,
    {
        assert(views[i as int] == groups@[i as int]@);
        if groups[i].same(g) {
            return true;
        }
        i += 1;
    }
    false
}

// ---------------------------------------------------------------------
// Relay capabilities
// ---------------------------------------------------------------------

/// What a live peer said of itself in a handshake.
#[derive(Clone, Copy, Debug, PartialEq, Eq, Structural)]
pub struct DnsRelayPeerCapability {
    pub address: SocketAddr,
    pub services: u64,
    pub fully_handshaken: bool,
    pub cooldown_until: Option<u64>,
}

pub open spec fn eligible(c: DnsRelayPeerCapability, now: u64) -> bool {
    c.fully_handshaken && c.services & EXPERIMENTAL_DNS_RELAY_SERVICE != 0 && match c.cooldown_until {
        Some(until) => until <= now,
        None => true,
    }
}

impl DnsRelayPeerCapability {
    pub fn is_eligible(self, now: u64) -> (r: bool)
        ensures
            r == eligible(self, now),
    {
        self.fully_handshaken && self.services & EXPERIMENTAL_DNS_RELAY_SERVICE != 0
            && match self.cooldown_until {
            Some(until) => until <= now,
            None => true,
        }
    }
}

// ---------------------------------------------------------------------
// Candidates and their order
// ---------------------------------------------------------------------

/// What peers are wanted for.
#[derive(Clone, Copy)]
pub enum Purpose<'a> {
    /// Any peer.
    Outbound,
    /// Peers that have been tried little, other than some.
    Discovery { exclude: &'a [SocketAddr] },
    /// Peers that relay queries, other than the one that gives proofs where
    /// another will do.
    Relay { capabilities: &'a [DnsRelayPeerCapability], proof_peer: Option<SocketAddr> },
}

#[verifier::ext_equal]
pub enum PurposeView {
    Outbound,
    Discovery { exclude: Seq<SocketAddr> },
    Relay { capabilities: Seq<DnsRelayPeerCapability>, proof_peer: Option<SocketAddr> },
}

impl<'a> View for Purpose<'a> {
    type V = PurposeView;

    open spec fn view(&self) -> PurposeView {
        match *self {
            Purpose::Outbound => PurposeView::Outbound,
            Purpose::Discovery { exclude } => PurposeView::Discovery { exclude: exclude@ },
            Purpose::Relay { capabilities, proof_peer } => PurposeView::Relay {
                capabilities: capabilities@,
                proof_peer,
            },
        }
    }
}

/// Whether some capability makes the peer at an address fit to relay.
pub open spec fn can_relay(
    capabilities: Seq<DnsRelayPeerCapability>,
    address: SocketAddr,
    now: u64,
) -> bool {
    exists|i: int|
        0 <= i < capabilities.len() && (#[trigger] capabilities[i]).address == address && eligible(
            capabilities[i],
            now,
        )
}

pub open spec fn wanted(purpose: PurposeView, p: PeerState, now: u64) -> bool {
    !peers::banned(p, now) && match purpose {
        PurposeView::Outbound => true,
        PurposeView::Discovery { exclude } => !exclude.contains(p.address),
        PurposeView::Relay { capabilities, .. } => can_relay(capabilities, p.address, now),
    }
}

/// Addresses in their order: by family, address, port, flow information and scope.
pub open spec fn address_number(a: SocketAddr) -> int {
    match a {
        SocketAddr::V4 { ip, port } => ip.bits * 0x1_0000 + port,
        SocketAddr::V6 { ip, port, flow, scope } => 0x1_0000_0000_0000 + ((ip.bits * 0x1_0000
            + port) * 0x1_0000_0000 + flow) * 0x1_0000_0000 + scope,
    }
}

/// What peers are ordered by; the smaller comes first.
#[derive(Clone, Copy, Debug, PartialEq, Eq, Structural)]
pub struct Rank {
    pub first: i128,
    pub second: i128,
    pub third: i128,
    pub fourth: i128,
    pub address: SocketAddr,
}

pub open spec fn comes_before(a: Rank, b: Rank) -> bool {
    a.first < b.first || (a.first == b.first && (a.second < b.second || (a.second == b.second && (
    a.third < b.third || (a.third == b.third && (a.fourth < b.fourth || (a.fourth == b.fourth
        && address_number(a.address) < address_number(b.address))))))))
}

/// When a peer was last connected to; never comes before any time.
pub open spec fn connected_at(p: PeerState) -> i128 {
    match p.last_connected_at {
        Some(t) => t as i128,
        None => (0 - 1) as i128,
    }
}

/// Whether the peer is the one that gives proofs; where there is none, all are.
pub open spec fn gives_proofs(proof_peer: Option<SocketAddr>, p: PeerState) -> i128 {
    match proof_peer {
        Some(a) => if p.address == a {
            1
        } else {
            0
        },
        None => 1,
    }
}

/// Low scores come first, then great heights; discovery first looks at how often
/// and when a peer was used, relaying at whether it gives proofs.
pub open spec fn rank(purpose: PurposeView, p: PeerState) -> Rank {
    let height = (0 - p.last_height.0) as i128;
    match purpose {
        PurposeView::Outbound => Rank {
            first: p.score as i128,
            second: height,
            third: 0,
            fourth: 0,
            address: p.address,
        },
        PurposeView::Discovery { .. } => Rank {
            first: p.successes as i128,
            second: p.score as i128,
            third: connected_at(p),
            fourth: height,
            address: p.address,
        },
        PurposeView::Relay { proof_peer, .. } => Rank {
            first: gives_proofs(proof_peer, p),
            second: p.score as i128,
            third: height,
            fourth: 0,
            address: p.address,
        },
    }
}

pub open spec fn outranks(purpose: PurposeView, p: PeerState, q: PeerState) -> bool {
    comes_before(rank(purpose, p), rank(purpose, q))
}

pub open spec fn is_ordered(purpose: PurposeView, s: Seq<PeerState>) -> bool {
    forall|i: int, j: int|
        0 <= i < j < s.len() ==> outranks(purpose, #[trigger] s[i], #[trigger] s[j])
}

/// The known peers that are wanted, each once, in order.
pub open spec fn is_ranking(
    m: Map<SocketAddr, PeerState>,
    purpose: PurposeView,
    now: u64,
    s: Seq<PeerState>,
) -> bool {
    &&& is_ordered(purpose, s)
    &&& forall|p: PeerState| #[trigger]
        s.contains(p) <==> m.contains_key(p.address) && m[p.address] == p && wanted(purpose, p, now)
}

fn address_before(a: SocketAddr, b: SocketAddr) -> (r: bool)
    ensures
        r == (address_number(a) < address_number(b)),
{
    match (a, b) {
        (SocketAddr::V4 { ip: x, port: p }, SocketAddr::V4 { ip: y, port: q }) => x.bits < y.bits
            || (x.bits == y.bits && p < q),
        (
            SocketAddr::V6 { ip: x, port: p, flow: f, scope: s },
            SocketAddr::V6 { ip: y, port: q, flow: g, scope: t },
        ) => x.bits < y.bits || (x.bits == y.bits && (p < q || (p == q && (f < g || (f == g && s
            < t))))),
        (SocketAddr::V4 { .. }, SocketAddr::V6 { .. }) => true,
        (SocketAddr::V6 { .. }, SocketAddr::V4 { .. }) => false,
    }
}

fn is_before(a: Rank, b: Rank) -> (r: bool)
    ensures
        r == comes_before(a, b),
{
    if a.first != b.first {
        a.first < b.first
    } else if a.second != b.second {
        a.second < b.second
    } else if a.third != b.third {
        a.third < b.third
    } else if a.fourth != b.fourth {
        a.fourth < b.fourth
    } else {
        address_before(a.address, b.address)
    }
}

fn rank_of(purpose: Purpose, p: PeerState) -> (r: Rank)
    ensures
        r == rank(purpose@, p),
{
    let height: i128 = 0i128 - p.last_height.0 as i128;
    match purpose {
        Purpose::Outbound => Rank {
            first: p.score as i128,
            second: height,
            third: 0,
            fourth: 0,
            address: p.address,
        },
        Purpose::Discovery { .. } => Rank {
            first: p.successes as i128,
            second: p.score as i128,
            third: match p.last_connected_at {
                Some(t) => t as i128,
                None => -1,
            },
            fourth: height,
            address: p.address,
        },
        Purpose::Relay { proof_peer, .. } => Rank {
            first: match proof_peer {
                Some(a) => if p.address == a {
                    1
                } else {
                    0
                },
                None => 1,
            },
            second: p.score as i128,
            third: height,
            fourth: 0,
            address: p.address,
        },
    }
}

fn among(list: &[SocketAddr], address: SocketAddr) -> (r: bool)
    ensures
        r == list@.contains(address),
{
    let mut i: usize = 0;
    while i < list.len()
        invariant
            i <= list@.len(),
            forall|j: int| 0 <= j < i ==> #[trigger] list@[j] != address,
        decreases list@.len() - i,
    {
        if list[i] == address {
            assert(list@[i as int] == address);
            return true;
        }
        i += 1;
    }
    false
}

fn relays(capabilities: &[DnsRelayPeerCapability], address: SocketAddr, now: u64) -> (r: bool)
    ensures
        r == can_relay(capabilities@, address, now),
{
    let mut i: usize = 0;
    while i < capabilities.len()
        invariant
            i <= capabilities@.len(),
            forall|j: int|
                0 <= j < i ==> !((#[trigger] capabilities@[j]).address == address && eligible(
                    capabilities@[j],
                    now,
                )),
        decreases capabilities@.len() - i,
    {
        if capabilities[i].address == address && capabilities[i].is_eligible(now) {
            assert(capabilities@[i as int].address == address);
            return true;
        }
        i += 1;
    }
    false
}

fn is_wanted(purpose: Purpose, p: PeerState, now: u64) -> (r: bool)
    ensures
        r == wanted(purpose@, p, now),
{
    if p.is_banned(now) {
        return false;
    }
    match purpose {
        Purpose::Outbound => true,
        Purpose::Discovery { exclude } => !among(exclude, p.address),
        Purpose::Relay { capabilities, .. } => relays(capabilities, p.address, now),
    }
}

/// Peers at different addresses are always in one order or the other, and the
/// order is transitive.
#[verifier::spinoff_prover]
#[verifier::rlimit(40)]
proof fn lemma_order(purpose: PurposeView, p: PeerState, q: PeerState, r: PeerState)
    ensures
        !outranks(purpose, p, p),
        p.address != q.address ==> outranks(purpose, p, q) || outranks(purpose, q, p),
        !(outranks(purpose, p, q) && outranks(purpose, q, p)),
        outranks(purpose, p, q) && outranks(purpose, q, r) ==> outranks(purpose, p, r),
{
    addresses_are_ordered(p.address, q.address);
    addresses_are_ordered(q.address, p.address);
}

fn insert_ranked(list: &mut Vec<PeerState>, purpose: Purpose, p: PeerState)
    requires
        is_ordered(purpose@, old(list)@),
        forall|i: int|
            0 <= i < old(list)@.len() ==> (#[trigger] old(list)@[i]).address != p.address,
    ensures
        is_ordered(purpose@, final(list)@),
        forall|q: PeerState| #[trigger]
            final(list)@.contains(q) <==> old(list)@.contains(q) || q == p,
{
    let ghost before = list@;
    let r = rank_of(purpose, p);
    let mut k: usize = 0;
    while k < list.len() && is_before(rank_of(purpose, list[k]), r)
        invariant
            k <= list@.len(),
            list@ == before,
            r == rank(purpose@, p),
            forall|j: int| 0 <= j < k ==> outranks(purpose@, #[trigger] before[j], p),
        decreases list@.len() - k,
    {
        k += 1;
    }
    list.insert(k, p);
    proof {
        let after = list@;
        assert forall|i: int, j: int| 0 <= i < j < after.len() implies outranks(
            purpose@,
            #[trigger] after[i],
            #[trigger] after[j],
        ) by {
            if j == k {
                assert(after[i] == before[i]);
            } else if i == k {
                assert(after[j] == before[j - 1]);
                lemma_order(purpose@, p, before[k as int], before[j - 1]);
                assert(before[k as int].address != p.address);
                assert(outranks(purpose@, p, before[k as int]));
                if k < j - 1 {
                    assert(outranks(purpose@, before[k as int], before[j - 1]));
                }
            } else {
                let x = if i < k {
                    i
                } else {
                    i - 1
                };
                let y = if j < k {
                    j
                } else {
                    j - 1
                };
                assert(after[i] == before[x] && after[j] == before[y]);
            }
        }
        assert forall|q: PeerState| #[trigger] after.contains(q) <==> before.contains(q) || q == p by {
            if after.contains(q) {
                let i = choose|i: int| 0 <= i < after.len() && after[i] == q;
                if i < k {
                    assert(before[i] == q);
                } else if i > k {
                    assert(before[i - 1] == q);
                }
            }
            if before.contains(q) {
                let i = choose|i: int| 0 <= i < before.len() && before[i] == q;
                if i < k {
                    assert(after[i] == q);
                } else {
                    assert(after[i + 1] == q);
                }
            }
            if q == p {
                assert(after[k as int] == q);
            }
        }
    }
}

// ---------------------------------------------------------------------
// Choosing
// ---------------------------------------------------------------------

/// Whether no earlier peer is of the same group.
pub open spec fn leads(s: Seq<PeerState>, i: int) -> bool {
    forall|j: int| 0 <= j < i ==> group_of((#[trigger] s[j]).address) != group_of(s[i].address)
}

/// The addresses of the first peer of each group.
pub open spec fn leaders(s: Seq<PeerState>) -> Seq<SocketAddr>
    decreases s.len(),
{
    if s.len() == 0 {
        Seq::empty()
    } else if leads(s, s.len() - 1) {
        leaders(s.drop_last()).push(s.last().address)
    } else {
        leaders(s.drop_last())
    }
}

/// The addresses of the others.
pub open spec fn followers(s: Seq<PeerState>) -> Seq<SocketAddr>
    decreases s.len(),
{
    if s.len() == 0 {
        Seq::empty()
    } else if leads(s, s.len() - 1) {
        followers(s.drop_last())
    } else {
        followers(s.drop_last()).push(s.last().address)
    }
}

/// So many addresses: from different groups as far as there are, then the rest.
pub open spec fn chosen(s: Seq<PeerState>, count: nat) -> Seq<SocketAddr> {
    let all = leaders(s) + followers(s);
    if all.len() <= count {
        all
    } else {
        all.take(count as int)
    }
}

fn split_groups(s: &Vec<PeerState>) -> (r: (Vec<SocketAddr>, Vec<SocketAddr>))
    ensures
        r.0@ == leaders(s@),
        r.1@ == followers(s@),
{
    let mut lead: Vec<SocketAddr> = Vec::new();
    let mut rest: Vec<SocketAddr> = Vec::new();
    let mut groups: Vec<PeerAddressGroup> = Vec::new();
    let mut i: usize = 0;
    assert(s@.take(0) == Seq::<PeerState>::empty());
    while i < s.len()
        invariant
            i <= s@.len(),
            lead@ == leaders(s@.take(i as int)),
            rest@ == followers(s@.take(i as int)),
            forall|j: int|
                0 <= j < i ==> group_views(groups@).contains(group_of((#[trigger] s@[j]).address)),
            forall|k: int|
                0 <= k < groups@.len() ==> exists|j: int|
                    0 <= j < i && group_of((#[trigger] s@[j]).address) == (#[trigger] groups@[k])@,
        decreases s@.len() - i,
    {
        let ghost part = s@.take(i as int + 1);
        let ghost held = groups@;
        let a = s[i].address;
        let g = PeerAddressGroup::from_socket_addr(a);
        proof {
            assert(part.drop_last() == s@.take(i as int));
            assert(part.last() == s@[i as int]);
        }
        if holds_group(&groups, &g) {
            proof {
                let k = choose|k: int|
                    0 <= k < group_views(held).len() && group_views(held)[k] == g@;
                assert(group_views(held)[k] == held[k]@);
                let j = choose|j: int|
                    0 <= j < i && group_of((#[trigger] s@[j]).address) == held[k]@;
                assert(part[j] == s@[j]);
                assert(!leads(part, i as int));
            }
            rest.push(a);
        } else {
            proof {
                assert forall|j: int| 0 <= j < i implies group_of((#[trigger] part[j]).address)
                    != group_of(part[i as int].address) by {
                    assert(part[j] == s@[j]);
                }
                assert(leads(part, i as int));
            }
            lead.push(a);
            groups.push(g);
            proof {
                assert(group_views(groups@) =~= group_views(held).push(g@));
                assert forall|j: int| 0 <= j < i + 1 implies group_views(groups@).contains(
                    group_of((#[trigger] s@[j]).address),
                ) by {
                    if j < i {
                        assert(group_views(held).contains(group_of(s@[j].address)));
                        let k = choose|k: int|
                            0 <= k < group_views(held).len() && group_views(held)[k] == group_of(
                                s@[j].address,
                            );
                        assert(group_views(groups@)[k] == group_of(s@[j].address));
                    } else {
                        assert(group_views(groups@)[held.len() as int] == g@);
                    }
                }
                assert forall|k: int| 0 <= k < groups@.len() implies exists|j: int|
                    0 <= j < i + 1 && group_of((#[trigger] s@[j]).address) == (
                    #[trigger] groups@[k])@ by {
                    if k < held.len() {
                        assert(groups@[k] == held[k]);
                        let j = choose|j: int|
                            0 <= j < i && group_of((#[trigger] s@[j]).address) == held[k]@;
                        assert(group_of(s@[j].address) == groups@[k]@);
                    } else {
                        assert(group_of(s@[i as int].address) == groups@[k]@);
                    }
                }
            }
        }
        i += 1;
    }
    assert(s@.take(i as int) == s@);
    (lead, rest)
}

fn choose_diverse(s: &Vec<PeerState>, count: usize) -> (r: Vec<SocketAddr>)
    ensures
        r@ == chosen(s@, count as nat),
{
    let (mut lead, mut rest) = split_groups(s);
    let ghost all = leaders(s@) + followers(s@);
    lead.append(&mut rest);
    assert(lead@ =~= all);
    if lead.len() <= count {
        lead
    } else {
        lead.truncate(count);
        assert(lead@ =~= all.take(count as int));
        lead
    }
}

impl PeerManager {
    /// The known peers that are wanted, in order.
    pub fn ranking(&self, purpose: Purpose, now: u64) -> (r: Vec<PeerState>)
        requires
            self.wf(),
        ensures
            is_ranking(self@, purpose@, now, r@),
    {
        let all = self.iter();
        let mut list: Vec<PeerState> = Vec::new();
        let mut i: usize = 0;
        while i < all.len()
            invariant
                i <= all@.len(),
                peers::addresses_differ(all@),
                is_ordered(purpose@, list@),
                forall|p: PeerState| #[trigger]
                    list@.contains(p) <==> wanted(purpose@, p, now) && exists|j: int|
                        0 <= j < i && #[trigger] all@[j] == p,
            decreases all@.len() - i,
        {
            let p = all[i];
            let ghost before = list@;
            if is_wanted(purpose, p, now) {
                assert forall|k: int| 0 <= k < list@.len() implies (#[trigger] list@[k]).address
                    != p.address by {
                    assert(list@.contains(list@[k]));
                    let j = choose|j: int| 0 <= j < i && #[trigger] all@[j] == list@[k];
                    assert(all@[j].address != all@[i as int].address);
                }
                insert_ranked(&mut list, purpose, p);
            }
            proof {
                assert forall|q: PeerState| #[trigger] list@.contains(q) <==> wanted(
                    purpose@,
                    q,
                    now,
                ) && exists|j: int| 0 <= j < i + 1 && #[trigger] all@[j] == q by {
                    if list@.contains(q) {
                        if before.contains(q) {
                            let j = choose|j: int| 0 <= j < i && #[trigger] all@[j] == q;
                            assert(all@[j] == q);
                        } else {
                            assert(all@[i as int] == q);
                        }
                    }
                    if wanted(purpose@, q, now) && exists|j: int|
                        0 <= j < i + 1 && #[trigger] all@[j] == q {
                        let j = choose|j: int| 0 <= j < i + 1 && #[trigger] all@[j] == q;
                        if j < i {
                            assert(before.contains(q));
                        }
                        assert(list@.contains(q));
                    }
                }
            }
            i += 1;
        }
        proof {
            peers::lemma_by_address(all@);
            let m = self@;
            assert forall|p: PeerState| #[trigger] list@.contains(p) <==> m.contains_key(p.address)
                && m[p.address] == p && wanted(purpose@, p, now) by {
                if list@.contains(p) {
                    let j = choose|j: int| 0 <= j < i && #[trigger] all@[j] == p;
                    assert(m.contains_key(all@[j].address));
                    assert(m[all@[j].address] == all@[j]);
                }
                if m.contains_key(p.address) && m[p.address] == p {
                    let j = choose|j: int|
                        0 <= j < all@.len() && all@[j].address == p.address && all@[j]
                            == peers::by_address(all@)[p.address];
                    assert(all@[j] == p);
                }
            }
        }
        list
    }

    pub fn select_outbound(&self, preferred_count: usize, now: u64) -> (r: Vec<SocketAddr>)
        requires
            self.wf(),
        ensures
            exists|s: Seq<PeerState>| #[trigger]
                is_ranking(self@, PurposeView::Outbound, now, s) && r@ == chosen(
                    s,
                    preferred_count as nat,
                ),
    {
        let s = self.ranking(Purpose::Outbound, now);
        choose_diverse(&s, preferred_count)
    }

    pub fn select_discovery_outbound(
        &self,
        preferred_count: usize,
        now: u64,
        exclude: &[SocketAddr],
    ) -> (r: Vec<SocketAddr>)
        requires
            self.wf(),
        ensures
            exists|s: Seq<PeerState>| #[trigger]
                is_ranking(self@, PurposeView::Discovery { exclude: exclude@ }, now, s) && r@ == chosen(
                    s,
                    preferred_count as nat,
                ),
    {
        let s = self.ranking(Purpose::Discovery { exclude }, now);
        choose_diverse(&s, preferred_count)
    }

    /// Peers to relay through, of those that said in a live handshake that they do.
    pub fn select_dns_relay(
        &self,
        capabilities: &[DnsRelayPeerCapability],
        preferred_count: usize,
        now: u64,
        proof_peer: Option<SocketAddr>,
    ) -> (r: Vec<SocketAddr>)
        requires
            self.wf(),
        ensures
            exists|s: Seq<PeerState>| #[trigger]
                is_ranking(self@, PurposeView::Relay { capabilities: capabilities@, proof_peer }, now, s) && r@
                    == chosen(s, preferred_count as nat),
    {
        let s = self.ranking(Purpose::Relay { capabilities, proof_peer }, now);
        choose_diverse(&s, preferred_count)
    }

    /// How many groups the peers that are not banned are of.
    pub fn address_group_count(&self, now: u64) -> (r: usize)
        requires
            self.wf(),
        ensures
            r == groups_in_use(self@, now).len(),
    {
        let s = self.ranking(Purpose::Outbound, now);
        let all = self.iter();
        let (lead, rest) = split_groups(&s);
        proof {
            peers::lemma_by_address(all@);
            lemma_leaders(s@);
            let g = groups_at(leaders(s@));
            g.unique_seq_to_set();
            assert(g.to_set() =~= groups_in_use(self@, now)) by {
                assert forall|x: GroupView| #[trigger] g.to_set().contains(x) <==> groups_in_use(
                    self@,
                    now,
                ).contains(x) by {
                    if g.contains(x) {
                        let i = choose|i: int|
                            0 <= i < s@.len() && group_of((#[trigger] s@[i]).address) == x;
                        assert(s@.contains(s@[i]));
                        assert(self@.contains_key(s@[i].address));
                    }
                    if groups_in_use(self@, now).contains(x) {
                        let a = choose|a: SocketAddr| #[trigger]
                            self@.contains_key(a) && !peers::banned(self@[a], now) && group_of(a)
                                == x;
                        assert(self@[a].address == a);
                        assert(s@.contains(self@[a]));
                        let i = choose|i: int| 0 <= i < s@.len() && s@[i] == self@[a];
                        assert(group_of(s@[i].address) == x);
                    }
                }
            }
        }
        lead.len()
    }
}

/// The groups of the peers that are not banned.
pub open spec fn groups_in_use(m: Map<SocketAddr, PeerState>, now: u64) -> Set<GroupView> {
    Set::new(
        |g: GroupView|
            exists|a: SocketAddr| #[trigger]
                m.contains_key(a) && !peers::banned(m[a], now) && group_of(a) == g,
    )
}

pub open spec fn groups_at(addresses: Seq<SocketAddr>) -> Seq<GroupView> {
    addresses.map_values(|a: SocketAddr| group_of(a))
}

/// Leaders are of different groups, and of every group.
proof fn lemma_leaders(s: Seq<PeerState>)
    ensures
        groups_at(leaders(s)).no_duplicates(),
        forall|g: GroupView| #[trigger]
            groups_at(leaders(s)).contains(g) <==> exists|i: int|
                0 <= i < s.len() && group_of((#[trigger] s[i]).address) == g,
    decreases s.len(),
{
    if s.len() > 0 {
        let front = s.drop_last();
        lemma_leaders(front);
        let before = groups_at(leaders(front));
        let after = groups_at(leaders(s));
        let last = group_of(s.last().address);
        if leads(s, s.len() - 1) {
            assert(after =~= before.push(last));
            assert(!before.contains(last)) by {
                if before.contains(last) {
                    let i = choose|i: int|
                        0 <= i < front.len() && group_of((#[trigger] front[i]).address) == last;
                    assert(front[i] == s[i]);
                }
            }
            assert(after[before.len() as int] == last);
        } else {
            assert(after =~= before);
            let j = choose|j: int|
                0 <= j < s.len() - 1 && group_of((#[trigger] s[j]).address) == group_of(
                    s[s.len() - 1].address,
                );
            assert(front[j] == s[j]);
            assert(before.contains(last));
        }
        assert forall|g: GroupView| #[trigger] after.contains(g) <==> exists|i: int|
            0 <= i < s.len() && group_of((#[trigger] s[i]).address) == g by {
            if after.contains(g) {
                if before.contains(g) {
                    let i = choose|i: int|
                        0 <= i < front.len() && group_of((#[trigger] front[i]).address) == g;
                    assert(s[i] == front[i]);
                    assert(group_of(s[i].address) == g);
                } else {
                    assert(g == last);
                    assert(group_of(s[s.len() - 1].address) == g);
                }
            }
            if exists|i: int| 0 <= i < s.len() && group_of((#[trigger] s[i]).address) == g {
                let i = choose|i: int| 0 <= i < s.len() && group_of((#[trigger] s[i]).address) == g;
                if i < front.len() {
                    assert(front[i] == s[i]);
                    assert(group_of(front[i].address) == g);
                    assert(before.contains(g));
                    let k = choose|k: int| 0 <= k < before.len() && before[k] == g;
                    assert(after[k] == g);
                } else {
                    assert(g == last);
                }
            }
        }
    }
}

// ---------------------------------------------------------------------
// Laws
// ---------------------------------------------------------------------

proof fn lemma_ordered_unique(purpose: PurposeView, s: Seq<PeerState>, t: Seq<PeerState>)
    requires
        is_ordered(purpose, s),
        is_ordered(purpose, t),
        forall|p: PeerState| #[trigger] s.contains(p) <==> t.contains(p),
    ensures
        s == t,
    decreases s.len(),
{
    if s.len() == 0 {
        if t.len() > 0 {
            assert(t.contains(t[0]));
            assert(s.contains(t[0]));
        }
        assert(s =~= t);
    } else {
        assert(s.contains(s[0]));
        assert(t.contains(s[0]));
        assert(t.contains(t[0]));
        assert(s.contains(t[0]));
        let k = choose|k: int| 0 <= k < t.len() && t[k] == s[0];
        let l = choose|l: int| 0 <= l < s.len() && s[l] == t[0];
        if k > 0 {
            assert(outranks(purpose, t[0], t[k]));
            lemma_order(purpose, s[0], t[0], s[0]);
            if l > 0 {
                assert(outranks(purpose, s[0], s[l]));
            }
        }
        assert(s[0] == t[0]);
        let a = s.drop_first();
        let b = t.drop_first();
        assert(is_ordered(purpose, a)) by {
            assert forall|i: int, j: int| 0 <= i < j < a.len() implies outranks(
                purpose,
                #[trigger] a[i],
                #[trigger] a[j],
            ) by {
                assert(a[i] == s[i + 1] && a[j] == s[j + 1]);
            }
        }
        assert(is_ordered(purpose, b)) by {
            assert forall|i: int, j: int| 0 <= i < j < b.len() implies outranks(
                purpose,
                #[trigger] b[i],
                #[trigger] b[j],
            ) by {
                assert(b[i] == t[i + 1] && b[j] == t[j + 1]);
            }
        }
        assert forall|p: PeerState| #[trigger] a.contains(p) <==> b.contains(p) by {
            if a.contains(p) {
                let i = choose|i: int| 0 <= i < a.len() && a[i] == p;
                assert(s[i + 1] == p);
                assert(outranks(purpose, s[0], s[i + 1]));
                lemma_order(purpose, p, p, p);
                assert(s.contains(p));
                assert(t.contains(p));
                let j = choose|j: int| 0 <= j < t.len() && t[j] == p;
                assert(b[j - 1] == p);
            }
            if b.contains(p) {
                let i = choose|i: int| 0 <= i < b.len() && b[i] == p;
                assert(t[i + 1] == p);
                assert(outranks(purpose, t[0], t[i + 1]));
                lemma_order(purpose, p, p, p);
                assert(t.contains(p));
                assert(s.contains(p));
                let j = choose|j: int| 0 <= j < s.len() && s[j] == p;
                assert(a[j - 1] == p);
            }
        }
        lemma_ordered_unique(purpose, a, b);
        assert(s =~= seq![s[0]] + a);
        assert(t =~= seq![t[0]] + b);
    }
}

/// There is one ranking only, so that what is selected depends on nothing but
/// what is known of the peers.
pub proof fn rankings_are_unique(
    m: Map<SocketAddr, PeerState>,
    purpose: PurposeView,
    now: u64,
    s: Seq<PeerState>,
    t: Seq<PeerState>,
)
    requires
        is_ranking(m, purpose, now, s),
        is_ranking(m, purpose, now, t),
    ensures
        s == t,
{
    lemma_ordered_unique(purpose, s, t);
}

proof fn lemma_split(s: Seq<PeerState>)
    ensures
        leaders(s).len() + followers(s).len() == s.len(),
        forall|a: SocketAddr| #[trigger]
            leaders(s).contains(a) ==> exists|i: int|
                0 <= i < s.len() && (#[trigger] s[i]).address == a,
        forall|a: SocketAddr| #[trigger]
            followers(s).contains(a) ==> exists|i: int|
                0 <= i < s.len() && (#[trigger] s[i]).address == a,
        peers::addresses_differ(s) ==> (leaders(s) + followers(s)).no_duplicates(),
    decreases s.len(),
{
    if s.len() > 0 {
        let front = s.drop_last();
        lemma_split(front);
        let last = s.last().address;
        let (l, f) = (leaders(front), followers(front));
        assert forall|a: SocketAddr| #[trigger] leaders(s).contains(a) implies exists|i: int|
            0 <= i < s.len() && (#[trigger] s[i]).address == a by {
            let k = choose|k: int| 0 <= k < leaders(s).len() && leaders(s)[k] == a;
            if k < l.len() {
                assert(l[k] == a);
                assert(l.contains(a));
                let i = choose|i: int| 0 <= i < front.len() && (#[trigger] front[i]).address == a;
                assert(s[i] == front[i]);
            } else {
                assert(s[s.len() - 1].address == a);
            }
        }
        assert forall|a: SocketAddr| #[trigger] followers(s).contains(a) implies exists|i: int|
            0 <= i < s.len() && (#[trigger] s[i]).address == a by {
            let k = choose|k: int| 0 <= k < followers(s).len() && followers(s)[k] == a;
            if k < f.len() {
                assert(f[k] == a);
                assert(f.contains(a));
                let i = choose|i: int| 0 <= i < front.len() && (#[trigger] front[i]).address == a;
                assert(s[i] == front[i]);
            } else {
                assert(s[s.len() - 1].address == a);
            }
        }
        if peers::addresses_differ(s) {
            assert(peers::addresses_differ(front)) by {
                assert forall|i: int, j: int| 0 <= i < j < front.len() implies (
                #[trigger] front[i]).address != (#[trigger] front[j]).address by {
                    assert(front[i] == s[i] && front[j] == s[j]);
                }
            }
            let before = l + f;
            let after = leaders(s) + followers(s);
            assert forall|k: int| 0 <= k < before.len() implies #[trigger] before[k] != last by {
                let a = before[k];
                if k < l.len() {
                    assert(l[k] == a);
                    assert(l.contains(a));
                } else {
                    assert(f[k - l.len()] == a);
                    assert(f.contains(a));
                }
                let i = choose|i: int| 0 <= i < front.len() && (#[trigger] front[i]).address == a;
                assert(s[i] == front[i]);
                assert(s[i].address != s[s.len() - 1].address);
            }
            let place = if leads(s, s.len() - 1) {
                l.len() as int
            } else {
                before.len() as int
            };
            assert forall|i: int, j: int|
                0 <= i < after.len() && 0 <= j < after.len() && i != j implies after[i]
                != after[j] by {
                let x = if i < place {
                    i
                } else {
                    i - 1
                };
                let y = if j < place {
                    j
                } else {
                    j - 1
                };
                if i != place {
                    assert(after[i] == before[x]);
                }
                if j != place {
                    assert(after[j] == before[y]);
                }
                if i == place {
                    assert(after[i] == last);
                }
                if j == place {
                    assert(after[j] == last);
                }
            }
        }
    }
}

/// As many peers are selected as there are and as are asked for, none twice, and
/// only such as are known, wanted and not banned.
pub proof fn selections_are_of_wanted_peers(
    m: Map<SocketAddr, PeerState>,
    purpose: PurposeView,
    now: u64,
    s: Seq<PeerState>,
    count: nat,
)
    requires
        is_ranking(m, purpose, now, s),
    ensures
        chosen(s, count).len() == if s.len() <= count {
            s.len()
        } else {
            count
        },
        chosen(s, count).no_duplicates(),
        forall|a: SocketAddr| #[trigger]
            chosen(s, count).contains(a) ==> m.contains_key(a) && wanted(purpose, m[a], now)
                && !peers::banned(m[a], now),
{
    lemma_split(s);
    let all = leaders(s) + followers(s);
    assert(peers::addresses_differ(s)) by {
        assert forall|i: int, j: int| 0 <= i < j < s.len() implies (#[trigger] s[i]).address != (
        #[trigger] s[j]).address by {
            assert(s.contains(s[i]));
            assert(s.contains(s[j]));
            assert(outranks(purpose, s[i], s[j]));
            lemma_order(purpose, s[i], s[i], s[i]);
        }
    }
    let c = chosen(s, count);
    assert forall|a: SocketAddr| #[trigger] c.contains(a) implies m.contains_key(a) && wanted(
        purpose,
        m[a],
        now,
    ) && !peers::banned(m[a], now) by {
        let k = choose|k: int| 0 <= k < c.len() && c[k] == a;
        assert(all[k] == a);
        if k < leaders(s).len() {
            assert(leaders(s)[k] == a);
            assert(leaders(s).contains(a));
        } else {
            assert(followers(s)[k - leaders(s).len()] == a);
            assert(followers(s).contains(a));
        }
        let i = choose|i: int| 0 <= i < s.len() && (#[trigger] s[i]).address == a;
        assert(s.contains(s[i]));
    }
}

/// Selected peers are of different groups as long as there are groups that have
/// none selected.
pub proof fn selections_prefer_new_groups(s: Seq<PeerState>, count: nat)
    ensures
        leaders(s).len() >= count ==> groups_at(chosen(s, count)).no_duplicates(),
        leaders(s).len() <= count ==> forall|i: int|
            0 <= i < s.len() ==> groups_at(chosen(s, count)).contains(
                group_of((#[trigger] s[i]).address),
            ),
{
    lemma_leaders(s);
    let l = leaders(s);
    let c = chosen(s, count);
    if l.len() >= count {
        assert(c =~= l.take(count as int));
        assert forall|i: int, j: int|
            0 <= i < c.len() && 0 <= j < c.len() && i != j implies groups_at(c)[i] != groups_at(
            c,
        )[j] by {
            assert(groups_at(l)[i] == groups_at(c)[i]);
            assert(groups_at(l)[j] == groups_at(c)[j]);
        }
    }
    if l.len() <= count {
        assert forall|i: int| 0 <= i < s.len() implies groups_at(c).contains(
            group_of((#[trigger] s[i]).address),
        ) by {
            assert(groups_at(l).contains(group_of(s[i].address)));
            let k = choose|k: int|
                0 <= k < groups_at(l).len() && groups_at(l)[k] == group_of(s[i].address);
            assert(groups_at(c)[k] == groups_at(l)[k]);
        }
    }
}

/// Two addresses of the older kind are of one group where their first sixteen bits agree,
/// two of the newer kind where their first thirty-two do; no group has both.
pub proof fn groups_share_their_first_bits(a: SocketAddr, b: SocketAddr)
    ensures
        group_of(a) == group_of(b) <==> match (addr::socket_ip(a), addr::socket_ip(b)) {
            (IpAddr::V4(x), IpAddr::V4(y)) => x.bits as int / 0x1_0000 == y.bits as int / 0x1_0000,
            (IpAddr::V6(x), IpAddr::V6(y)) => x.bits as int
                / 0x1_0000_0000_0000_0000_0000_0000 == y.bits as int
                / 0x1_0000_0000_0000_0000_0000_0000,
            _ => false,
        },
{
    let (p, q) = (addr::socket_ip(a), addr::socket_ip(b));
    lemma_group_bytes(p);
    lemma_group_bytes(q);
    match (p, q) {
        (IpAddr::V4(x), IpAddr::V4(y)) => {
            let g = wire::ip_bytes(p).subrange(12, 14);
            let h = wire::ip_bytes(q).subrange(12, 14);
            if g == h {
                assert(g[0] == h[0] && g[1] == h[1]);
                let (m, n) = (x.bits as int / 0x1_0000, y.bits as int / 0x1_0000);
                assert(m == g[0] * 256 + g[1]);
                assert(n == h[0] * 256 + h[1]);
            } else if x.bits as int / 0x1_0000 == y.bits as int / 0x1_0000 {
                assert(g =~= h);
            }
        },
        (IpAddr::V6(x), IpAddr::V6(y)) => {
            let g = wire::ip_bytes(p).subrange(0, 4);
            let h = wire::ip_bytes(q).subrange(0, 4);
            let top = 0x1_0000_0000_0000_0000_0000_0000int;
            let (m, n) = (x.bits as int / top, y.bits as int / top);
            if g == h {
                assert(g[0] == h[0] && g[1] == h[1] && g[2] == h[2] && g[3] == h[3]);
            } else if m == n {
                assert(g =~= h);
            }
        },
        _ => {},
    }
}

/// The first bytes of an address, as numbers.
proof fn lemma_group_bytes(ip: IpAddr)
    ensures
        wire::ip_bytes(ip).len() == 16,
        match ip {
            IpAddr::V4(a) => {
                let b = wire::ip_bytes(ip).subrange(12, 14);
                let n = a.bits as int / 0x1_0000;
                b[0] == n / 256 && b[1] == n % 256
            },
            IpAddr::V6(a) => {
                let b = wire::ip_bytes(ip).subrange(0, 4);
                let n = a.bits as int / 0x1_0000_0000_0000_0000_0000_0000;
                &&& b[0] == n / 0x100_0000 && b[1] == n / 0x1_0000 % 256
                &&& b[2] == n / 0x100 % 256 && b[3] == n % 256
                &&& n == b[0] * 0x100_0000 + b[1] * 0x1_0000 + b[2] * 0x100 + b[3]
            },
        },
{
    wire::lemma_ip_bytes_len(ip);
    match ip {
        IpAddr::V4(a) => {
            addr::octets_are_the_bits(a);
            let o = a.octets_spec();
            let m = wire::mapped_prefix();
            assert(m.len() == 12);
            assert(wire::ip_bytes(ip)[12] == o[0] as u8 && wire::ip_bytes(ip)[13] == o[1] as u8);
        },
        IpAddr::V6(a) => {
            let n = a.bits as nat;
            let d = addr::base_digits(n, 256, 16);
            addr::lemma_base_digits_len(n, 256, 16);
            let n12 = n / 256 / 256 / 256 / 256 / 256 / 256 / 256 / 256 / 256 / 256 / 256 / 256;
            assert(n12 == n / 0x1_0000_0000_0000_0000_0000_0000);
            reveal_with_fuel(addr::base_digits, 13);
            let e = addr::base_digits(n12, 256, 4);
            addr::lemma_base_digits_len(n12, 256, 4);
            assert(d.take(4) =~= e);
            assert(n12 < 0x1_0000_0000);
            addr::octets_are_the_bits(addr::Ipv4Addr { bits: n12 as u32 });
            assert(d[0] == e[0] && d[1] == e[1] && d[2] == e[2] && d[3] == e[3]);
            let b = wire::ip_bytes(ip).subrange(0, 4);
            assert(b[0] == d[0] && b[1] == d[1] && b[2] == d[2] && b[3] == d[3]);
            let k = n12 as int;
            assert(k == k / 0x100_0000 * 0x100_0000 + k / 0x1_0000 % 256 * 0x1_0000 + k / 0x100
                % 256 * 0x100 + k % 256);
        },
    }
}

/// A peer relays queries where it is known in full, offers that service, and has no time
/// to wait out. A peer is wanted where it is not banned, and for a purpose where it is not
/// to be left out and, for relaying, can.
pub proof fn peers_are_wanted_for_a_purpose(
    c: DnsRelayPeerCapability,
    capabilities: Seq<DnsRelayPeerCapability>,
    exclude: Seq<SocketAddr>,
    proof_peer: Option<SocketAddr>,
    p: PeerState,
    now: u64,
)
    ensures
        eligible(c, now) <==> c.fully_handshaken && c.services & 0x4000_0000 != 0 && (
        c.cooldown_until matches Some(until) ==> until <= now),
        ({
            let free = p.banned_until matches Some(until) ==> until <= now;
            &&& wanted(PurposeView::Outbound, p, now) <==> free
            &&& wanted(PurposeView::Discovery { exclude }, p, now) <==> free && !exclude.contains(
                p.address,
            )
            &&& wanted(PurposeView::Relay { capabilities, proof_peer }, p, now) <==> free && exists|
                i: int,
            |
                0 <= i < capabilities.len() && (#[trigger] capabilities[i]).address == p.address
                    && eligible(capabilities[i], now)
        }),
{
}

/// For connections a peer comes first for its lower score, then for its greater height; for
/// discovery for fewer successes, then its score, then for the longer time since it was
/// connected to, then its height; for relaying where it gives no proofs, then as for
/// connections. What is equal so far is ordered by address.
pub proof fn peers_are_ranked(
    p: PeerState,
    q: PeerState,
    exclude: Seq<SocketAddr>,
    capabilities: Seq<DnsRelayPeerCapability>,
    proof_peer: Option<SocketAddr>,
)
    ensures
        ({
            let first = address_number(p.address) < address_number(q.address);
            let higher = p.last_height.0 > q.last_height.0 || p.last_height.0 == q.last_height.0
                && first;
            let better = p.score < q.score || p.score == q.score && higher;
            let older = match (p.last_connected_at, q.last_connected_at) {
                (None, None) => higher,
                (None, Some(_)) => true,
                (Some(_), None) => false,
                (Some(s), Some(t)) => s < t || s == t && higher,
            };
            let proves = |a: SocketAddr| proof_peer is None || proof_peer == Some(a);
            let relay = PurposeView::Relay { capabilities, proof_peer };
            &&& outranks(PurposeView::Outbound, p, q) <==> better
            &&& outranks(PurposeView::Discovery { exclude }, p, q) <==> p.successes < q.successes
                || p.successes == q.successes && (p.score < q.score || p.score == q.score && older)
            &&& outranks(relay, p, q) <==> (!proves(p.address) && proves(q.address)) || (proves(
                p.address,
            ) == proves(q.address) && better)
        }),
{
}

/// The order of addresses: the older kind before the newer, each by its bits, then by its
/// port, and the newer then by its flow and its scope.
pub proof fn addresses_are_ordered(a: SocketAddr, b: SocketAddr)
    ensures
        address_number(a) < address_number(b) <==> match (a, b) {
            (SocketAddr::V4 { .. }, SocketAddr::V6 { .. }) => true,
            (SocketAddr::V6 { .. }, SocketAddr::V4 { .. }) => false,
            (SocketAddr::V4 { ip, port }, SocketAddr::V4 { ip: ip2, port: port2 }) => ip.bits
                < ip2.bits || ip.bits == ip2.bits && port < port2,
            (
                SocketAddr::V6 { ip, port, flow, scope },
                SocketAddr::V6 { ip: ip2, port: port2, flow: flow2, scope: scope2 },
            ) => ip.bits < ip2.bits || ip.bits == ip2.bits && (port < port2 || port == port2 && (flow
                < flow2 || flow == flow2 && scope < scope2)),
        },
{
}

/// Where all peers are of different groups, the selection is the first of the ranking; where
/// all are of one, it is so too.
pub proof fn selections_follow_the_ranking(s: Seq<PeerState>, count: nat)
    requires
        count <= s.len(),
        (forall|i: int, j: int|
            0 <= i < j < s.len() ==> group_of((#[trigger] s[i]).address) != group_of(
                (#[trigger] s[j]).address,
            )) || (forall|i: int, j: int|
            0 <= i < j < s.len() ==> group_of((#[trigger] s[i]).address) == group_of(
                (#[trigger] s[j]).address,
            )),
    ensures
        chosen(s, count) == s.take(count as int).map_values(|p: PeerState| p.address),
{
    let all = s.map_values(|p: PeerState| p.address);
    let differ = forall|i: int, j: int|
        0 <= i < j < s.len() ==> group_of((#[trigger] s[i]).address) != group_of(
            (#[trigger] s[j]).address,
        );
    lemma_leaders_all(s, differ);
    assert(leaders(s) + followers(s) =~= all);
    assert(all.take(count as int) =~= s.take(count as int).map_values(|p: PeerState| p.address));
    assert(all.take(s.len() as int) =~= all);
}

proof fn lemma_leaders_all(s: Seq<PeerState>, differ: bool)
    requires
        differ ==> forall|i: int, j: int|
            0 <= i < j < s.len() ==> group_of((#[trigger] s[i]).address) != group_of(
                (#[trigger] s[j]).address,
            ),
        !differ ==> forall|i: int, j: int|
            0 <= i < j < s.len() ==> group_of((#[trigger] s[i]).address) == group_of(
                (#[trigger] s[j]).address,
            ),
    ensures
        differ ==> leaders(s) == s.map_values(|p: PeerState| p.address) && followers(s).len() == 0,
        !differ && s.len() > 0 ==> leaders(s) == seq![s[0].address] && followers(s)
            == s.drop_first().map_values(|p: PeerState| p.address),
        s.len() == 0 ==> leaders(s).len() == 0 && followers(s).len() == 0,
    decreases s.len(),
{
    let address = |p: PeerState| p.address;
    if s.len() > 0 {
        let front = s.drop_last();
        let n = s.len() - 1;
        assert forall|i: int| 0 <= i < front.len() implies front[i] == s[i] by {}
        lemma_leaders_all(front, differ);
        if differ {
            assert(leads(s, n));
            assert(s.map_values(address) =~= front.map_values(address).push(s.last().address));
        } else if n > 0 {
            assert(group_of(s[0].address) == group_of(s[n].address));
            assert(!leads(s, n));
            assert(s.drop_first().map_values(address) =~= front.drop_first().map_values(
                address,
            ).push(s.last().address));
        } else {
            assert(leads(s, n));
            assert(leaders(front) =~= Seq::empty());
            assert(followers(front) =~= Seq::empty());
            assert(leaders(s) =~= seq![s[0].address]);
            assert(s.drop_first().map_values(address) =~= Seq::empty());
        }
    }
}

/// A group is in use where a peer of it is known and not banned.
pub proof fn groups_in_use_have_a_peer(m: Map<SocketAddr, PeerState>, a: SocketAddr, now: u64)
    ensures
        m.contains_key(a) && (m[a].banned_until is None || m[a].banned_until->Some_0 <= now)
            ==> groups_in_use(m, now).contains(group_of(a)),
        forall|g: GroupView| #[trigger]
            groups_in_use(m, now).contains(g) ==> exists|b: SocketAddr| #[trigger]
                m.contains_key(b) && (m[b].banned_until is None || m[b].banned_until->Some_0 <= now)
                    && group_of(b) == g,
{
    assert forall|g: GroupView| #[trigger] groups_in_use(m, now).contains(g) implies exists|
        b: SocketAddr,
    | #[trigger]
        m.contains_key(b) && (m[b].banned_until is None || m[b].banned_until->Some_0 <= now)
            && group_of(b) == g by {
        let b = choose|b: SocketAddr| #[trigger]
            m.contains_key(b) && !peers::banned(m[b], now) && group_of(b) == g;
        assert(m.contains_key(b));
    }
}

} // verus!

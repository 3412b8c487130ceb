//! Where the first peers come from.

use crate::addr::SocketAddr;
use crate::frame::NetworkParameters;
use crate::http1::IoKind;
use crate::packet;
use crate::peers::PeerSource;
use crate::text;
use crate::wire::P2pError;
use vstd::prelude::*;

verus! {

pub const DEFAULT_DNS_SEED_LIMIT: usize = 64;

// ---------------------------------------------------------------------
// Given peers
// ---------------------------------------------------------------------

/// The addresses, each once, as they come first, and so many at most.
pub open spec fn extended(
    found: Seq<SocketAddr>,
    addresses: Seq<SocketAddr>,
    limit: nat,
) -> Seq<SocketAddr>
    decreases addresses.len(),
{
    if addresses.len() == 0 {
        found
    } else {
        let before = extended(found, addresses.drop_last(), limit);
        if before.len() >= limit || before.contains(addresses.last()) {
            before
        } else {
            before.push(addresses.last())
        }
    }
}

/// The addresses, each once, as they come first.
pub open spec fn unique(addresses: Seq<SocketAddr>) -> Seq<SocketAddr>
    decreases addresses.len(),
{
    if addresses.len() == 0 {
        Seq::empty()
    } else {
        let before = unique(addresses.drop_last());
        if before.contains(addresses.last()) {
            before
        } else {
            before.push(addresses.last())
        }
    }
}

/// Appends the addresses that are not there yet, up to a limit.
pub fn push_unique_addresses(peers: &mut Vec<SocketAddr>, addresses: &[SocketAddr], limit: usize)
    ensures
        final(peers)@ == extended(old(peers)@, addresses@, limit as nat),
{
    let ghost start = peers@;
    let mut i: usize = 0;
    assert(addresses@.take(0) == Seq::<SocketAddr>::empty());
    while i < addresses.len()
        invariant
            i <= addresses@.len(),
            peers@ == extended(start, addresses@.take(i as int), limit as nat),
        decreases addresses@.len() - i,
    {
        assert(addresses@.take(i as int + 1).drop_last() == addresses@.take(i as int));
        if peers.len() < limit && !packet::holds_address(peers, addresses[i]) {
            peers.push(addresses[i]);
        }
        i += 1;
    }
    assert(addresses@.take(i as int) == addresses@);
}

/// Peers that were given.
#[derive(Clone, Debug, PartialEq, Eq)]
pub struct StaticPeerSource {
    peers: Vec<SocketAddr>,
}

impl View for StaticPeerSource {
    type V = Seq<SocketAddr>;

    closed spec fn view(&self) -> Seq<SocketAddr> {
        self.peers@
    }
}

impl Default for StaticPeerSource {
    fn default() -> (r: Self)
        ensures
            r@ == Seq::<SocketAddr>::empty(),
    {
        StaticPeerSource { peers: Vec::new() }
    }
}

impl StaticPeerSource {
    pub fn new(peers: &[SocketAddr]) -> (r: Self)
        ensures
            r@ == unique(peers@),
    {
        let mut out: Vec<SocketAddr> = Vec::new();
        let mut i: usize = 0;
        assert(peers@.take(0) == Seq::<SocketAddr>::empty());
        while i < peers.len()
            invariant
                i <= peers@.len(),
                out@ == unique(peers@.take(i as int)),
            decreases peers@.len() - i,
        {
            assert(peers@.take(i as int + 1).drop_last() == peers@.take(i as int));
            if !packet::holds_address(&out, peers[i]) {
                out.push(peers[i]);
            }
            i += 1;
        }
        assert(peers@.take(i as int) == peers@);
        StaticPeerSource { peers: out }
    }

    pub fn peers(&self) -> (r: &[SocketAddr])
        ensures
            r@ == self@,
    {
        self.peers.as_slice()
    }
}

impl PeerSource for StaticPeerSource {
    fn discover(&self) -> (r: Result<Vec<SocketAddr>, P2pError>)
        ensures
            r is Ok,
            r->Ok_0@ == self@,
    {
        let mut out: Vec<SocketAddr> = Vec::new();
        let mut i: usize = 0;
        while i < self.peers.len()
            invariant
                i <= self.peers@.len(),
                out@ == self.peers@.take(i as int),
            decreases self.peers@.len() - i,
        {
            out.push(self.peers[i]);
            i += 1;
            assert(out@ =~= self.peers@.take(i as int));
        }
        assert(out@ =~= self.peers@);
        Ok(out)
    }
}

/// No address is kept twice, and none is lost.
pub proof fn given_peers_are_kept_once(addresses: Seq<SocketAddr>)
    ensures
        unique(addresses).no_duplicates(),
        forall|a: SocketAddr| #[trigger] unique(addresses).contains(a) <==> addresses.contains(a),
    decreases addresses.len(),
{
    if addresses.len() > 0 {
        let front = addresses.drop_last();
        given_peers_are_kept_once(front);
        let before = unique(front);
        let after = unique(addresses);
        let last = addresses.last();
        assert forall|a: SocketAddr| #[trigger] after.contains(a) <==> addresses.contains(a) by {
            if after.contains(a) {
                let k = choose|k: int| 0 <= k < after.len() && after[k] == a;
                if k < before.len() {
                    assert(before[k] == a);
                    assert(before.contains(a));
                    let i = choose|i: int| 0 <= i < front.len() && front[i] == a;
                    assert(addresses[i] == a);
                } else {
                    assert(addresses[addresses.len() - 1] == a);
                }
            }
            if addresses.contains(a) {
                let i = choose|i: int| 0 <= i < addresses.len() && addresses[i] == a;
                if i < front.len() {
                    assert(front[i] == a);
                    assert(before.contains(a));
                    let k = choose|k: int| 0 <= k < before.len() && before[k] == a;
                    assert(after[k] == a);
                } else if !before.contains(last) {
                    assert(after[before.len() as int] == a);
                }
            }
        }
    }
}

// ---------------------------------------------------------------------
// Seeds
// ---------------------------------------------------------------------

pub open spec fn name_views(names: Seq<String>) -> Seq<Seq<char>> {
    names.map_values(|n: String| n@)
}

/// The names that are not empty, each once, as they come first.
pub open spec fn distinct_names(names: Seq<Seq<char>>) -> Seq<Seq<char>>
    decreases names.len(),
{
    if names.len() == 0 {
        Seq::empty()
    } else {
        let before = distinct_names(names.drop_last());
        if names.last().len() == 0 || before.contains(names.last()) {
            before
        } else {
            before.push(names.last())
        }
    }
}

fn holds_name(names: &Vec<String>, name: &str) -> (r: bool)
    ensures
        r == name_views(names@).contains(name@),
{
    let ghost views = name_views(names@);
    let mut i: usize = 0;
    while i < names.len()
        invariant
            i <= names@.len(),
            views == name_views(names@),
            forall|j: int| 0 <= j < i ==> #[trigger] views[j] != name@,
        decreases names@.len() - i,
    {
        assert(views[i as int] == names@[i as int]@);
        if text::same_text(names[i].as_str(), name) {
            return true;
        }
        i += 1;
    }
    false
}

/// The names that are not empty, each once.
pub fn dedupe_seed_names(seeds: &[String]) -> (r: Vec<String>)
    ensures
        name_views(r@) == distinct_names(name_views(seeds@)),
{
    let ghost all = name_views(seeds@);
    let mut out: Vec<String> = Vec::new();
    let mut i: usize = 0;
    assert(all.take(0) == Seq::<Seq<char>>::empty());
    assert(name_views(out@) =~= Seq::<Seq<char>>::empty());
    while i < seeds.len()
        invariant
            i <= seeds@.len(),
            all == name_views(seeds@),
            name_views(out@) == distinct_names(all.take(i as int)),
        decreases seeds@.len() - i,
    {
        let ghost before = name_views(out@);
        proof {
            assert(all.take(i as int + 1).drop_last() == all.take(i as int));
            assert(all[i as int] == seeds@[i as int]@);
        }
        let name = seeds[i].as_str();
        let chars = text::to_chars(name);
        if chars.len() != 0 && !holds_name(&out, name) {
            let copy = name.to_owned();
            assert(name_views(out@.push(copy)) =~= before.push(name@));
            out.push(copy);
        }
        i += 1;
    }
    assert(all.take(i as int) == all);
    out
}

/// Names whose addresses are peers.
#[derive(Clone, Debug, PartialEq, Eq)]
pub struct DnsSeedPeerSource {
    seeds: Vec<String>,
    port: u16,
    limit: usize,
}

#[verifier::ext_equal]
pub struct SeedSourceView {
    pub seeds: Seq<Seq<char>>,
    pub port: u16,
    pub limit: usize,
}

impl View for DnsSeedPeerSource {
    type V = SeedSourceView;

    closed spec fn view(&self) -> SeedSourceView {
        SeedSourceView { seeds: name_views(self.seeds@), port: self.port, limit: self.limit }
    }
}

impl DnsSeedPeerSource {
    pub fn from_network(network: &NetworkParameters) -> (r: Self)
        ensures
            r@ == (SeedSourceView {
                seeds: distinct_names(name_views(network.dns_seeds@)),
                port: network.port,
                limit: DEFAULT_DNS_SEED_LIMIT,
            }),
    {
        DnsSeedPeerSource::new(network.dns_seeds.as_slice(), network.port)
    }

    pub fn new(seeds: &[String], port: u16) -> (r: Self)
        ensures
            r@ == (SeedSourceView {
                seeds: distinct_names(name_views(seeds@)),
                port,
                limit: DEFAULT_DNS_SEED_LIMIT,
            }),
    {
        DnsSeedPeerSource { seeds: dedupe_seed_names(seeds), port, limit: DEFAULT_DNS_SEED_LIMIT }
    }

    pub fn with_limit(self, limit: usize) -> (r: Self)
        ensures
            r@ == (SeedSourceView { limit, ..self@ }),
    {
        DnsSeedPeerSource { seeds: self.seeds, port: self.port, limit }
    }

    pub fn seeds(&self) -> (r: &[String])
        ensures
            name_views(r@) == self@.seeds,
    {
        self.seeds.as_slice()
    }

    pub fn port(&self) -> (r: u16)
        ensures
            r == self@.port,
    {
        self.port
    }

    pub fn limit(&self) -> (r: usize)
        ensures
            r == self@.limit,
    {
        self.limit
    }
}

// ---------------------------------------------------------------------
// Looking seeds up
// ---------------------------------------------------------------------

/// What the lookup of a name gave.
pub enum Lookup {
    Found(Seq<SocketAddr>),
    Failed(IoKind),
}

pub open spec fn lookup_view(r: Result<Vec<SocketAddr>, IoKind>) -> Lookup {
    match r {
        Ok(v) => Lookup::Found(v@),
        Err(k) => Lookup::Failed(k),
    }
}

/// The peers that some lookups gave together.
pub open spec fn found_by(lookups: Seq<Lookup>, limit: nat) -> Seq<SocketAddr>
    decreases lookups.len(),
{
    if lookups.len() == 0 {
        Seq::empty()
    } else {
        let before = found_by(lookups.drop_last(), limit);
        match lookups.last() {
            Lookup::Found(a) => extended(before, a, limit),
            Lookup::Failed(_) => before,
        }
    }
}

/// What the last lookup that failed gave.
pub open spec fn last_failure(lookups: Seq<Lookup>) -> Option<IoKind>
    decreases lookups.len(),
{
    if lookups.len() == 0 {
        None
    } else {
        match lookups.last() {
            Lookup::Failed(k) => Some(k),
            Lookup::Found(_) => last_failure(lookups.drop_last()),
        }
    }
}

/// What a source discovers: the peers, or the last failure where there are none.
pub open spec fn discovered(lookups: Seq<Lookup>, limit: nat) -> Result<
    Seq<SocketAddr>,
    P2pError,
> {
    let peers = found_by(lookups, limit);
    match last_failure(lookups) {
        Some(kind) if peers.len() == 0 && limit > 0 => Err(P2pError::Io(kind)),
        _ => Ok(peers),
    }
}

/// A search through the seeds of a source, one lookup after the other.
pub struct SeedSearch {
    limit: usize,
    peers: Vec<SocketAddr>,
    last_error: Option<IoKind>,
    lookups: Ghost<Seq<Lookup>>,
}

impl SeedSearch {
    pub closed spec fn lookups(self) -> Seq<Lookup> {
        self.lookups@
    }

    pub closed spec fn most(self) -> usize {
        self.limit
    }

    pub closed spec fn wf(self) -> bool {
        &&& self.peers@ == found_by(self.lookups@, self.limit as nat)
        &&& self.last_error == last_failure(self.lookups@)
    }

    pub fn new(source: &DnsSeedPeerSource) -> (r: Self)
        ensures
            r.wf(),
            r.lookups() == Seq::<Lookup>::empty(),
            r.most() == source@.limit,
    {
        SeedSearch {
            limit: source.limit,
            peers: Vec::new(),
            last_error: None,
            lookups: Ghost(Seq::empty()),
        }
    }

    /// Takes in the result of one more lookup.
    pub fn record(&mut self, lookup: Result<Vec<SocketAddr>, IoKind>)
        requires
            old(self).wf(),
        ensures
            final(self).wf(),
            final(self).most() == old(self).most(),
            final(self).lookups() == old(self).lookups().push(lookup_view(lookup)),
    {
        let ghost before = self.lookups@;
        let ghost after = before.push(lookup_view(lookup));
        proof {
            assert(after.drop_last() == before);
        }
        self.lookups = Ghost(after);
        match lookup {
            Ok(addresses) => {
                push_unique_addresses(&mut self.peers, addresses.as_slice(), self.limit);
            },
            Err(kind) => {
                self.last_error = Some(kind);
            },
        }
    }

    /// Whether further lookups cannot change anything.
    pub fn is_full(&self) -> (r: bool)
        requires
            self.wf(),
        ensures
            r == (found_by(self.lookups(), self.most() as nat).len() >= self.most()),
    {
        self.peers.len() >= self.limit
    }

    pub fn finish(self) -> (r: Result<Vec<SocketAddr>, P2pError>)
        requires
            self.wf(),
        ensures
            match (r, discovered(self.lookups(), self.most() as nat)) {
                (Ok(v), Ok(s)) => v@ == s,
                (Err(e), Err(f)) => e == f,
                _ => false,
            },
    {
        if self.peers.len() == 0 && self.limit > 0 {
            match self.last_error {
                Some(kind) => {
                    return Err(P2pError::Io(kind));
                },
                None => {},
            }
        }
        Ok(self.peers)
    }
}

proof fn lemma_full_stays(found: Seq<SocketAddr>, addresses: Seq<SocketAddr>, limit: nat)
    requires
        found.len() >= limit,
    ensures
        extended(found, addresses, limit) == found,
    decreases addresses.len(),
{
    if addresses.len() > 0 {
        lemma_full_stays(found, addresses.drop_last(), limit);
    }
}

/// Once a search is full, further lookups change nothing, so that they need not
/// be made.
pub proof fn full_searches_are_over(lookups: Seq<Lookup>, more: Seq<Lookup>, limit: nat)
    requires
        found_by(lookups, limit).len() >= limit,
    ensures
        found_by(lookups + more, limit) == found_by(lookups, limit),
        discovered(lookups + more, limit) == discovered(lookups, limit),
    decreases more.len(),
{
    if more.len() > 0 {
        let all = lookups + more;
        assert(all.drop_last() =~= lookups + more.drop_last());
        full_searches_are_over(lookups, more.drop_last(), limit);
        match all.last() {
            Lookup::Found(a) => {
                lemma_full_stays(found_by(lookups, limit), a, limit);
            },
            Lookup::Failed(_) => {},
        }
    } else {
        assert(lookups + more =~= lookups);
    }
}

proof fn lemma_extended_bound(found: Seq<SocketAddr>, addresses: Seq<SocketAddr>, limit: nat)
    requires
        found.len() <= limit,
        found.no_duplicates(),
    ensures
        extended(found, addresses, limit).len() <= limit,
        extended(found, addresses, limit).no_duplicates(),
    decreases addresses.len(),
{
    if addresses.len() > 0 {
        lemma_extended_bound(found, addresses.drop_last(), limit);
    }
}

/// A search never finds more than its limit, nor an address twice.
pub proof fn searches_are_bounded(lookups: Seq<Lookup>, limit: nat)
    ensures
        found_by(lookups, limit).len() <= limit,
        found_by(lookups, limit).no_duplicates(),
    decreases lookups.len(),
{
    if lookups.len() > 0 {
        searches_are_bounded(lookups.drop_last(), limit);
        match lookups.last() {
            Lookup::Found(a) => {
                lemma_extended_bound(found_by(lookups.drop_last(), limit), a, limit);
            },
            Lookup::Failed(_) => {},
        }
    }
}

/// What is found joins what was found before, behind it, once each and in order, as long as
/// there is room: an address is left out only for want of room.
pub proof fn found_addresses_are_kept(found: Seq<SocketAddr>, addresses: Seq<SocketAddr>, limit: nat)
    ensures
        ({
            let r = extended(found, addresses, limit);
            &&& found.len() <= r.len() && r.take(found.len() as int) == found
            &&& forall|a: SocketAddr| #[trigger]
                r.contains(a) ==> found.contains(a) || addresses.contains(a)
            &&& r.len() < limit ==> forall|a: SocketAddr| #[trigger]
                addresses.contains(a) ==> r.contains(a)
            &&& r.len() > found.len() ==> r.len() <= limit
        }),
    decreases addresses.len(),
{
    if addresses.len() > 0 {
        let front = addresses.drop_last();
        let last = addresses.last();
        found_addresses_are_kept(found, front, limit);
        let before = extended(found, front, limit);
        let r = extended(found, addresses, limit);
        assert forall|a: SocketAddr| #[trigger] addresses.contains(a) <==> front.contains(a) || a
            == last by {
            if addresses.contains(a) {
                let i = choose|i: int| 0 <= i < addresses.len() && addresses[i] == a;
                if i < front.len() {
                    assert(front[i] == a);
                }
            }
            if front.contains(a) {
                let i = choose|i: int| 0 <= i < front.len() && front[i] == a;
                assert(addresses[i] == a);
            }
            assert(addresses[addresses.len() - 1] == last);
        }
        assert forall|a: SocketAddr| #[trigger] r.contains(a) <==> before.contains(a) || (r.len()
            > before.len() && a == last) by {
            if r.contains(a) {
                let i = choose|i: int| 0 <= i < r.len() && r[i] == a;
                if i < before.len() {
                    assert(before[i] == a);
                }
            }
            if before.contains(a) {
                let i = choose|i: int| 0 <= i < before.len() && before[i] == a;
                assert(r[i] == a);
            }
            if r.len() > before.len() {
                assert(r[r.len() - 1] == last);
            }
        }
        assert(r.take(found.len() as int) =~= before.take(found.len() as int));
    } else {
        assert(found.take(found.len() as int) =~= found);
    }
}

/// A search gives what was found, even where some lookups failed. It fails only where none
/// was found though some might be, and then as the last lookup that failed did.
pub proof fn searches_give_what_was_found(lookups: Seq<Lookup>, limit: nat)
    ensures
        ({
            let failed = exists|i: int| 0 <= i < lookups.len() && #[trigger] lookups[i] is Failed;
            let found = found_by(lookups, limit);
            let r = discovered(lookups, limit);
            &&& r is Err <==> failed && found.len() == 0 && limit > 0
            &&& r is Ok ==> r->Ok_0 == found
            &&& r is Err ==> exists|i: int|
                0 <= i < lookups.len() && #[trigger] lookups[i] is Failed && r->Err_0
                    == P2pError::Io(lookups[i]->Failed_0) && forall|j: int|
                    i < j < lookups.len() ==> !(#[trigger] lookups[j] is Failed)
        }),
{
    lemma_last_failure(lookups);
}

proof fn lemma_last_failure(lookups: Seq<Lookup>)
    ensures
        match last_failure(lookups) {
            None => forall|i: int| 0 <= i < lookups.len() ==> !(#[trigger] lookups[i] is Failed),
            Some(k) => exists|i: int|
                0 <= i < lookups.len() && #[trigger] lookups[i] == Lookup::Failed(k) && forall|
                    j: int,
                |
                    i < j < lookups.len() ==> !(#[trigger] lookups[j] is Failed),
        },
    decreases lookups.len(),
{
    if lookups.len() > 0 {
        let front = lookups.drop_last();
        let n = lookups.len() - 1;
        if lookups.last() is Found {
            lemma_last_failure(front);
            match last_failure(front) {
                None => {
                    assert forall|i: int| 0 <= i < lookups.len() implies !(
                    #[trigger] lookups[i] is Failed) by {
                        if i < n {
                            assert(front[i] == lookups[i]);
                        }
                    }
                },
                Some(k) => {
                    let i = choose|i: int|
                        0 <= i < front.len() && #[trigger] front[i] == Lookup::Failed(k) && forall|
                            j: int,
                        |
                            i < j < front.len() ==> !(#[trigger] front[j] is Failed);
                    assert(lookups[i] == Lookup::Failed(k));
                    assert forall|j: int| i < j < lookups.len() implies !(
                    #[trigger] lookups[j] is Failed) by {
                        if j < n {
                            assert(front[j] == lookups[j]);
                        }
                    }
                },
            }
        } else {
            assert(lookups[n] == lookups.last());
        }
    }
}

/// Each seed that has a name is asked once, in the order in which they are given.
pub proof fn named_seeds_are_kept_once(names: Seq<Seq<char>>, name: Seq<char>)
    ensures
        distinct_names(names).no_duplicates(),
        distinct_names(names).contains(name) <==> name.len() > 0 && names.contains(name),
        distinct_names(names.push(name)) == (if name.len() == 0 || names.contains(name) {
            distinct_names(names)
        } else {
            distinct_names(names).push(name)
        }),
    decreases names.len(),
{
    if names.len() > 0 {
        let front = names.drop_last();
        let last = names.last();
        named_seeds_are_kept_once(front, name);
        named_seeds_are_kept_once(front, last);
        let before = distinct_names(front);
        if names.contains(name) {
            let i = choose|i: int| 0 <= i < names.len() && names[i] == name;
            if i < front.len() {
                assert(front[i] == name);
            }
        }
        if front.contains(name) {
            let i = choose|i: int| 0 <= i < front.len() && front[i] == name;
            assert(names[i] == name);
        }
        assert(names[names.len() - 1] == last);
        let r = distinct_names(names);
        if before.contains(name) {
            let i = choose|i: int| 0 <= i < before.len() && before[i] == name;
            assert(r[i] == name);
        }
        if r.contains(name) && !before.contains(name) {
            let i = choose|i: int| 0 <= i < r.len() && r[i] == name;
            if i < before.len() {
                assert(before[i] == name);
            }
        }
        if r.len() > before.len() {
            assert(r[r.len() - 1] == last);
        }
    }
    assert(names.push(name).drop_last() =~= names);
    if name.len() > 0 {
        assert(distinct_names(names).contains(name) <==> names.contains(name));
    }
}

/// A search by name stops at sixty-four addresses unless it is told otherwise.
pub proof fn searches_have_a_limit(seeds: &[String], port: u16, r: DnsSeedPeerSource)
    requires
        call_ensures(DnsSeedPeerSource::new, (seeds, port), r),
    ensures
        r@.limit == 64,
        r@.port == port,
        r@.seeds == distinct_names(name_views(seeds@)),
{
}

} // verus!

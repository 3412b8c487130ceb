use hns_browser::addr::{IpAddr, Ipv4Addr, Ipv6Addr, SocketAddr};
use hns_browser::frame::NetworkParameters;
use hns_browser::http1::IoKind;
use hns_browser::notation::parse_socket;
use hns_browser::packet::Height;
use hns_browser::peers::{
    is_allowed_peer_endpoint, PeerManager, PeerSource, PeerState, BAN_SCORE,
};
use hns_browser::seeds::{
    push_unique_addresses, DnsSeedPeerSource, SeedSearch, StaticPeerSource, DEFAULT_DNS_SEED_LIMIT,
};
use hns_browser::selection::PeerAddressGroup;
use hns_browser::store::{
    load_manager, row_to_peer_state, stored_manager, sync_generation, usize_from_i64, StorageFault,
    StoredPeer, ValueFault,
};
use hns_browser::wire::{DisconnectReason, P2pError, ParseError, RelayPacketFault};

fn mainnet() -> NetworkParameters {
    NetworkParameters {
        name: "mainnet".to_owned(),
        magic: 0x5b6e_f2d3,
        port: 12_038,
        dns_seeds: vec![
            "hs-mainnet.bcoin.ninja".to_owned(),
            "seed.htools.work".to_owned(),
        ],
    }
}

fn address(text: &str) -> SocketAddr {
    let chars: Vec<char> = text.chars().collect();
    parse_socket(&chars).unwrap()
}

/// Whether an address of these tests can be reached from the public internet.
fn publicly_routable(address: SocketAddr) -> bool {
    address.ip() == IpAddr::V4(Ipv4Addr::new(1, 1, 1, 1))
}

fn allowed(network: &NetworkParameters, address: SocketAddr) -> bool {
    is_allowed_peer_endpoint(network, address, publicly_routable(address))
}

#[test]
fn peer_manager_selects_best_non_banned_peers() {
    let mut manager = PeerManager::default();
    let good = address("127.0.0.1:12038");
    let stale = address("127.0.0.2:12038");
    let bad = address("127.0.0.3:12038");

    manager.record_success(good, Height(10), 100);
    manager.record_success(stale, Height(9), 100);
    manager.record_stale_tip(stale);
    manager.record_malformed(bad, 100, 60);

    assert_eq!(manager.select_outbound(2, 120), vec![good, stale]);
    assert!(manager.get(bad).unwrap().is_banned(120));
}

#[test]
fn peer_manager_prefers_distinct_address_groups() {
    let mut manager = PeerManager::default();
    let best_same_group = address("10.1.0.1:12038");
    let next_same_group = address("10.1.0.2:12038");
    let diverse = address("10.2.0.1:12038");

    manager.record_success(best_same_group, Height(100), 100);
    manager.record_success(next_same_group, Height(99), 100);
    manager.record_success(diverse, Height(98), 100);
    manager.record_stale_tip(diverse);

    assert_eq!(
        manager.select_outbound(2, 100),
        vec![best_same_group, diverse],
    );
    assert_eq!(manager.address_group_count(100), 2);
}

#[test]
fn peer_manager_discovery_prefers_unqueried_non_excluded_peers() {
    let mut manager = PeerManager::default();
    let active = address("10.1.0.1:12038");
    let queried = address("10.2.0.1:12038");
    let unqueried_same_group = address("10.2.0.2:12038");
    let unqueried_diverse = address("10.3.0.1:12038");

    manager.record_success(active, Height(100), 100);
    manager.record_success(queried, Height(99), 100);
    manager.seed(&[unqueried_same_group, unqueried_diverse]);

    assert_eq!(
        manager.select_discovery_outbound(2, 200, &[active]),
        vec![unqueried_same_group, unqueried_diverse],
    );
}

#[test]
fn transient_failures_do_not_exhaust_peer_pool() {
    let mut manager = PeerManager::default();
    let flaky = address("127.0.0.1:12038");

    for _ in 0..25 {
        manager.record_transient_failure(flaky);
    }

    let peer = manager.get(flaky).unwrap();
    assert!(peer.score >= BAN_SCORE);
    assert_eq!(peer.banned_until, None);
    assert_eq!(manager.select_outbound(1, 1_000), vec![flaky]);
    assert_eq!(manager.address_group_count(1_000), 1);
}

#[test]
fn peer_manager_seeds_static_peers_without_resetting_state() {
    let mut manager = PeerManager::default();
    let known = address("127.0.0.1:12038");
    let discovered = address("127.0.0.2:12038");
    let source = StaticPeerSource::new(&[known, discovered, discovered]);

    manager.record_success(known, Height(42), 100);

    assert_eq!(source.peers(), &[known, discovered]);
    assert_eq!(manager.seed_from(&source).unwrap(), 1);
    assert_eq!(manager.len(), 2);
    assert_eq!(manager.get(known).unwrap().last_height, Height(42));
    assert_eq!(manager.select_outbound(2, 100), vec![known, discovered]);
}

#[test]
fn failed_sources_seed_nothing() {
    let mut manager = PeerManager::default();
    assert_eq!(
        manager.seed_found(Err(P2pError::Io(IoKind::TimedOut))),
        Err(P2pError::Io(IoKind::TimedOut))
    );
    assert!(manager.is_empty());
}

#[test]
fn records_change_only_what_they_are_about() {
    let mut manager = PeerManager::default();
    let peer = address("10.1.0.1:12038");
    manager.record_observed_height(peer, Height(7), 50);
    manager.record_connection(peer, 60);
    manager.record_transport_success(peer, 70);
    let state = manager.get(peer).unwrap();
    assert_eq!(state.last_height, Height(7));
    assert_eq!(state.last_height_observed_at, Some(50));
    assert_eq!(state.last_connected_at, Some(70));
    assert_eq!(state.successes, 1);
    assert_eq!(state.score, 0);
    manager.clear_observed_height(peer);
    assert_eq!(manager.get(peer).unwrap().last_height_observed_at, None);
    assert_eq!(manager.get(peer).unwrap().last_connected_at, Some(70));
    manager.upsert(peer).score = 9;
    manager.record_success(peer, Height(8), 80);
    assert_eq!(manager.get(peer).unwrap().score, 7);
    manager.record_malformed(peer, u64::MAX - 1, 60);
    assert_eq!(manager.get(peer).unwrap().banned_until, Some(u64::MAX));
}

#[test]
fn groups_are_the_first_octets() {
    assert_eq!(
        PeerAddressGroup::from_socket_addr(address("10.2.0.1:1")),
        PeerAddressGroup::Ipv4([10, 2])
    );
    assert_eq!(
        PeerAddressGroup::from_socket_addr(address("[2001:db8:1::1]:1")),
        PeerAddressGroup::Ipv6([0x20, 0x01, 0x0d, 0xb8])
    );
}

#[test]
fn dns_seed_source_uses_mainnet_hsd_seeds_and_port() {
    let network = mainnet();
    let source = DnsSeedPeerSource::from_network(&network);

    assert_eq!(
        source.seeds(),
        &[
            "hs-mainnet.bcoin.ninja".to_owned(),
            "seed.htools.work".to_owned(),
        ],
    );
    assert_eq!(source.port(), 12_038);
    assert_eq!(source.limit(), DEFAULT_DNS_SEED_LIMIT);
}

#[test]
fn peer_endpoint_policy_blocks_private_and_custom_mainnet_endpoints() {
    let network = mainnet();

    assert!(allowed(&network, address("1.1.1.1:12038")));
    for text in [
        "127.0.0.1:12038",
        "10.0.0.1:12038",
        "169.254.169.254:12038",
        "1.1.1.1:22",
        "1.1.1.1:13038",
        "[::1]:12038",
        "[fc00::1]:12038",
    ] {
        assert!(!allowed(&network, address(text)), "{text}");
    }
}

#[test]
fn peer_endpoint_policy_allows_regtest_loopback_and_custom_ports() {
    let network = NetworkParameters {
        name: "regtest".to_owned(),
        magic: 0xae38_95cf,
        port: 14_038,
        dns_seeds: Vec::new(),
    };

    assert!(allowed(&network, address("127.0.0.1:18444")));
    assert!(allowed(&network, address("[::1]:18444")));
    assert!(!allowed(&network, address("0.0.0.0:18444")));
    assert!(!allowed(&network, address("127.0.0.1:0")));
}

#[test]
fn peer_manager_can_prune_disallowed_persisted_endpoints() {
    let network = mainnet();
    let public = address("1.1.1.1:12038");
    let private = address("127.0.0.1:12038");
    let mut manager = PeerManager::default();
    manager.seed(&[public, private]);

    assert_eq!(
        manager.retain(|peer| allowed(&network, peer.address)),
        1
    );
    assert!(manager.get(public).is_some());
    assert!(manager.get(private).is_none());
}

#[test]
fn dns_seed_address_collection_dedupes_and_caps_results() {
    let first = address("127.0.0.1:12038");
    let second = address("127.0.0.2:12038");
    let third = address("127.0.0.3:12038");
    let mut peers = vec![first];

    push_unique_addresses(&mut peers, &[first, second, second, third], 2);

    assert_eq!(peers, vec![first, second]);
}

#[test]
fn dns_seed_source_dedupes_seed_names() {
    let source = DnsSeedPeerSource::new(
        &["seed.example".to_owned(), "".to_owned(), "seed.example".to_owned()],
        12038,
    );

    assert_eq!(source.seeds(), &["seed.example".to_owned()]);
}

#[test]
fn seed_searches_end_with_peers_or_the_last_failure() {
    let source = DnsSeedPeerSource::new(&["a".to_owned(), "b".to_owned()], 1).with_limit(2);
    let first = address("127.0.0.1:1");
    let second = address("127.0.0.2:1");

    let mut search = SeedSearch::new(&source);
    search.record(Err(IoKind::TimedOut));
    search.record(Err(IoKind::Other));
    assert_eq!(search.finish(), Err(P2pError::Io(IoKind::Other)));

    let mut search = SeedSearch::new(&source);
    search.record(Err(IoKind::TimedOut));
    search.record(Ok(vec![first, first]));
    assert!(!search.is_full());
    search.record(Ok(vec![second, address("127.0.0.3:1")]));
    assert!(search.is_full());
    assert_eq!(search.finish(), Ok(vec![first, second]));

    assert_eq!(SeedSearch::new(&source).finish(), Ok(Vec::new()));
}

#[test]
fn stored_managers_come_back_as_they_were() {
    let good = address("127.0.0.1:12038");
    let bad = address("[2001:db8::1]:12038");
    let mut manager = PeerManager::default();
    manager.record_success(good, Height(100), 1_000);
    manager.record_malformed(bad, 1_000, 600);

    let rows = stored_manager(&manager);
    assert_eq!(rows.len(), 2);
    assert_eq!(rows[1].address, "[2001:db8::1]:12038");
    let loaded = load_manager(&rows).unwrap();
    let persisted_good = loaded.get(good).unwrap();
    let persisted_bad = loaded.get(bad).unwrap();

    assert_eq!(persisted_good.last_height, Height(100));
    assert_eq!(persisted_good.last_height_observed_at, Some(1_000));
    assert_eq!(persisted_good.last_connected_at, Some(1_000));
    assert_eq!(persisted_bad.banned_until, Some(1_600));
    assert!(persisted_bad.is_banned(1_200));
    assert_eq!(loaded.select_outbound(8, 1_200), vec![good]);
}

#[test]
fn stored_rows_are_kept_by_a_database() {
    let connection = rusqlite::Connection::open_in_memory().unwrap();
    connection
        .execute_batch("CREATE TABLE peers (address TEXT PRIMARY KEY, last_connected_at TEXT)")
        .unwrap();
    let mut peer = PeerState::new(address("[2001:db8::1]:12038"));
    peer.last_connected_at = Some(u64::MAX);
    let row = StoredPeer::of(&peer);
    connection
        .execute(
            "INSERT INTO peers VALUES (?1, ?2)",
            (&row.address, &row.last_connected_at),
        )
        .unwrap();
    let (text, connected): (String, Option<String>) = connection
        .query_row("SELECT address, last_connected_at FROM peers", [], |row| {
            Ok((row.get(0)?, row.get(1)?))
        })
        .unwrap();
    let loaded = row_to_peer_state(&StoredPeer {
        address: text,
        last_connected_at: connected,
        ..row
    })
    .unwrap();
    assert_eq!(loaded, peer);
}

#[test]
fn permanent_bans_are_cleared_on_load() {
    let mut peer = PeerState::new(address("127.0.0.1:12038"));
    peer.score = BAN_SCORE;
    peer.banned_until = Some(u64::MAX);
    let loaded = row_to_peer_state(&StoredPeer::of(&peer)).unwrap();
    assert_eq!(loaded.score, BAN_SCORE);
    assert_eq!(loaded.banned_until, None);
    assert!(!loaded.is_banned(1_000));
}

fn fault(column: u64, fault: ValueFault) -> StorageFault {
    StorageFault { column, fault }
}

#[test]
fn damaged_rows_are_refused() {
    let row = StoredPeer::of(&PeerState::new(address("127.0.0.1:12038")));
    let mut bad_address = row.clone();
    bad_address.address = "nowhere".to_owned();
    assert_eq!(
        row_to_peer_state(&bad_address),
        Err(fault(0, ValueFault::Address))
    );
    let mut bad_height = row.clone();
    bad_height.last_height = -1;
    bad_height.failures = -1;
    assert_eq!(
        load_manager(&[row.clone(), bad_height]).err(),
        Some(P2pError::Storage(
            "Conversion error from type Integer at index: 2, \
             out of range integral type conversion attempted"
                .to_owned()
        ))
    );
    let mut bad_failures = row.clone();
    bad_failures.failures = 1 << 32;
    assert_eq!(
        row_to_peer_state(&bad_failures),
        Err(fault(7, ValueFault::OutOfRange))
    );
    for (text, cause) in [
        ("", ValueFault::NoDigits),
        ("+", ValueFault::InvalidDigit),
        ("-1", ValueFault::InvalidDigit),
        ("soon", ValueFault::InvalidDigit),
        ("12x", ValueFault::InvalidDigit),
        ("18446744073709551616", ValueFault::NumberTooLarge),
        ("18446744073709551616x", ValueFault::NumberTooLarge),
        ("1844674407370955161x6", ValueFault::InvalidDigit),
    ] {
        let mut bad_ban = row.clone();
        bad_ban.banned_until = Some(text.to_owned());
        bad_ban.address = "nowhere".to_owned();
        let refused = row_to_peer_state(&bad_ban).err().unwrap();
        assert_eq!(refused, fault(5, cause));
        let conversion = rusqlite::Error::FromSqlConversionFailure(
            5,
            rusqlite::types::Type::Text,
            Box::new(text.parse::<u64>().unwrap_err()),
        );
        assert_eq!(refused.message(), conversion.to_string());
    }
    assert_eq!(usize_from_i64(7, 0), Ok(7));
    let refused = usize_from_i64(-1, 0).err().unwrap();
    let conversion = rusqlite::Error::FromSqlConversionFailure(
        0,
        rusqlite::types::Type::Integer,
        Box::new(usize::try_from(-1_i64).unwrap_err()),
    );
    assert_eq!(refused.message(), conversion.to_string());
    assert_eq!(
        fault(0, ValueFault::Address).message(),
        "Conversion error from type Text at index: 0, invalid socket address syntax"
    );
}

#[test]
fn generations_are_numbers() {
    assert_eq!(sync_generation(None), Ok(0));
    assert_eq!(sync_generation(Some("9")), Ok(9));
    assert_eq!(sync_generation(Some("18446744073709551615")), Ok(u64::MAX));
    for text in ["18446744073709551616", "-1"] {
        assert_eq!(
            sync_generation(Some(text)),
            Err(P2pError::Storage(
                "peer sync generation is not a valid u64".to_owned()
            ))
        );
    }
}

#[test]
fn peer_errors_have_stable_messages() {
    for (error, text) in [
        (
            P2pError::Parse(ParseError::UnexpectedEof),
            "parse error: unexpected end of input",
        ),
        (P2pError::InvalidMagic, "invalid network magic"),
        (
            P2pError::InvalidDnsRelayPacket(RelayPacketFault::EmptyQuery),
            "invalid DNS-relay packet: DNS-relay query is empty",
        ),
        (
            P2pError::Io(IoKind::ConnectionRefused),
            "network I/O error: ConnectionRefused",
        ),
        (
            P2pError::SessionDisconnected(DisconnectReason::Closed),
            "peer session disconnected: session is closed",
        ),
        (
            P2pError::Storage("disk I/O error".to_owned()),
            "peer storage error: disk I/O error",
        ),
    ] {
        assert_eq!(error.message(), text);
    }
    for kind in [IoKind::TimedOut, IoKind::AddrInUse, IoKind::Uncategorized] {
        assert_eq!(kind.name(), format!("{kind:?}"));
    }
}

struct Unreachable;

impl PeerSource for Unreachable {
    fn discover(&self) -> Result<Vec<SocketAddr>, P2pError> {
        Err(P2pError::Io(IoKind::NetworkUnreachable))
    }
}

#[test]
fn sources_seed_what_they_find() {
    let mut manager = PeerManager::default();
    let source = StaticPeerSource::new(&[address("127.0.0.1:12038")]);
    assert_eq!(manager.seed_from(&source), Ok(1));
    assert_eq!(manager.seed_from(&source), Ok(0));
    assert_eq!(
        manager.seed_from(&Unreachable),
        Err(P2pError::Io(IoKind::NetworkUnreachable))
    );
    assert_eq!(manager.len(), 1);
}

#[test]
fn socket_addresses_are_read_as_they_are_written() {
    for text in [
        "1.2.3.4:5",
        "255.255.255.255:65535",
        "[::]:0",
        "[::1]:80",
        "[2001:db8::1:0:0:1]:443",
        "[1:2:3:4:5:6:7:8]:9",
        "[::ffff:1.2.3.4]:5",
        "[fe80::]:1",
        "[fe80::1%2]:12038",
        "[fe80::1%4294967295]:1",
    ] {
        let parsed = address(text);
        let written: String = parsed.to_chars().iter().collect();
        assert_eq!(written, text);
    }
    for text in [
        "1.2.3.4", "1.2.3.4:65536", "[::1]80", "::1:80", "1.2.3.4:", "[::1]:", "[fe80::1%]:1",
        "[fe80::1%4294967296]:1", "[fe80::1%eth0]:1", "[%2]:1", "1.2.3.4%2:1",
    ] {
        let chars: Vec<char> = text.chars().collect();
        assert!(parse_socket(&chars).is_none(), "{text}");
    }
}

#[test]
fn scopes_tell_addresses_apart() {
    let first = address("[fe80::1%2]:12038");
    let second = address("[fe80::1%3]:12038");
    let link = Ipv6Addr {
        bits: 0xfe80_0000_0000_0000_0000_0000_0000_0001,
    };
    assert_eq!(
        first,
        SocketAddr::V6 {
            ip: link,
            port: 12038,
            flow: 0,
            scope: 2,
        }
    );
    assert_eq!(address("[fe80::1%0]:12038"), address("[fe80::1]:12038"));
    assert_eq!(address("[fe80::1%002]:12038"), first);
    assert_eq!(first.ip(), IpAddr::V6(link));
    assert_eq!(second.port(), 12038);

    let mut manager = PeerManager::default();
    assert_eq!(manager.seed(&[second, first]), 2);
    assert_eq!(manager.select_outbound(8, 1_000), vec![first, second]);
    let rows = stored_manager(&manager);
    assert_eq!(rows.len(), 2);
    let loaded = load_manager(&rows).unwrap();
    assert!(loaded.get(first).is_some());
    assert!(loaded.get(second).is_some());
    assert!(loaded.get(address("[fe80::1]:12038")).is_none());
}

#[test]
fn flow_information_tells_addresses_apart_and_is_not_written() {
    let at = |flow: u32, scope: u32| SocketAddr::V6 {
        ip: Ipv6Addr { bits: 1 },
        port: 80,
        flow,
        scope,
    };
    let text = |address: SocketAddr| -> String { address.to_chars().iter().collect() };
    assert_eq!(text(at(7, 0)), "[::1]:80");
    assert_eq!(text(at(7, 9)), "[::1%9]:80");
    assert_eq!(address(&text(at(7, 9))), at(0, 9));

    let mut manager = PeerManager::default();
    assert_eq!(manager.seed(&[at(1, 0), at(0, 5), at(0, 5)]), 2);
    assert_eq!(manager.select_outbound(8, 1_000), vec![at(0, 5), at(1, 0)]);
}

use hns_browser::addr::{IpAddr, Ipv6Addr, SocketAddr};
use hns_browser::frame::{
    decode_frame, encode_frame, FrameDecoder, FrameHeader, NetworkParameters, FRAME_HEADER_SIZE,
    MAX_MESSAGE,
};
use hns_browser::notation::parse_socket;
use hns_browser::packet::{
    AddrPacket, BlockHeader, Digest, HeadersPacket, Height, LocatorPacket, NetAddress, Packet,
    PacketType, ProofPacket, ProofRequest, VersionPacket, MAX_ADDR, SERVICE_NETWORK,
};
use hns_browser::sync::{
    AddressTurn, HeaderSyncAction, HeaderSyncSession, HeaderSyncState, PeerConnection, PeerNext,
    PeerOutcome,
};
use hns_browser::wire::{DisconnectReason, P2pError, ParseError};

fn mainnet() -> NetworkParameters {
    NetworkParameters {
        name: "mainnet".to_owned(),
        magic: 0x5b6e_f2d3,
        port: 12_038,
        dns_seeds: vec![
            "hs-mainnet.bcoin.ninja".to_owned(),
            "seed.htools.work".to_owned(),
        ],
    }
}

fn address(text: &str) -> SocketAddr {
    let chars: Vec<char> = text.chars().collect();
    parse_socket(&chars).unwrap()
}

fn hex(text: &str) -> Vec<u8> {
    (0..text.len() / 2)
        .map(|i| u8::from_str_radix(&text[2 * i..2 * i + 2], 16).unwrap())
        .collect()
}

fn genesis_bytes() -> Vec<u8> {
    let mut bytes = Vec::new();
    bytes.extend(0u32.to_le_bytes());
    bytes.extend(1_580_745_078u64.to_le_bytes());
    bytes.extend([0u8; 32]);
    bytes.extend([0u8; 32]);
    bytes.extend([0u8; 24]);
    bytes.extend([0u8; 32]);
    bytes.extend(hex(
        "1a2c60b9439206938f8d7823782abdb8b211a57431e9c9b6a6365d8d42893351",
    ));
    bytes.extend(hex(
        "8e4c9756fef2ad10375f360e0560fcc7587eb5223ddf8cd7c7e06e60a1140b15",
    ));
    bytes.extend(0u32.to_le_bytes());
    bytes.extend(0x1c00_ffffu32.to_le_bytes());
    bytes.extend([0u8; 32]);
    bytes
}

fn mainnet_genesis() -> BlockHeader {
    BlockHeader::parse(&genesis_bytes()).unwrap()
}

fn mainnet_genesis_hash() -> Digest {
    let bytes = hex("5b6ef2d3c1f3cdcadfd9a030ba1811efdd17740f14e166489760741d075992e0");
    Digest::new(bytes.try_into().unwrap())
}

#[test]
fn getheaders_round_trip() {
    let packet = Packet::GetHeaders(LocatorPacket {
        locator: vec![mainnet_genesis_hash()],
        stop: Digest::zero(),
    });
    let payload = packet.encode_payload().unwrap();
    let decoded = Packet::decode_payload(PacketType::GetHeaders.code(), &payload).unwrap();

    assert_eq!(decoded, packet);
}

#[test]
fn headers_round_trip() {
    let packet = Packet::Headers(HeadersPacket {
        items: vec![mainnet_genesis()],
    });
    let payload = packet.encode_payload().unwrap();
    let decoded = Packet::decode_payload(PacketType::Headers.code(), &payload).unwrap();

    assert_eq!(decoded, packet);
}

#[test]
fn addr_round_trip_filters_service_sockets() {
    let good = address("127.0.0.2:12038");
    let missing_service = address("127.0.0.3:12038");
    let missing_port = address("127.0.0.4:0");
    let unspecified = address("0.0.0.0:12038");
    let packet = Packet::Addr(AddrPacket {
        items: vec![
            NetAddress::from_socket(good, SERVICE_NETWORK),
            NetAddress::from_socket(good, SERVICE_NETWORK),
            NetAddress::from_socket(missing_service, 0),
            NetAddress::from_socket(missing_port, SERVICE_NETWORK),
            NetAddress::from_socket(unspecified, SERVICE_NETWORK),
        ],
    });
    let payload = packet.encode_payload().unwrap();
    let decoded = Packet::decode_payload(PacketType::Addr.code(), &payload).unwrap();

    assert_eq!(decoded, packet);
    match decoded {
        Packet::Addr(addresses) => {
            assert_eq!(addresses.service_sockets(SERVICE_NETWORK), vec![good]);
        }
        other => panic!("unexpected packet: {other:?}"),
    }
}

#[test]
fn rejects_noncanonical_varint() {
    assert_eq!(
        Packet::decode_payload(PacketType::GetHeaders.code(), &[0xfd, 1, 0]).unwrap_err(),
        P2pError::NonCanonicalVarint,
    );
}

#[test]
fn version_round_trip() {
    let packet = Packet::Version(VersionPacket::default());
    let payload = packet.encode_payload().unwrap();
    let decoded = Packet::decode_payload(PacketType::Version.code(), &payload).unwrap();

    assert_eq!(decoded, packet);
}

#[test]
fn version_packet_uses_hsd_netaddress_wire_size() {
    let packet = VersionPacket::default();
    let payload = Packet::Version(packet.clone()).encode_payload().unwrap();

    assert_eq!(payload.len(), 20 + 88 + 8 + 1 + packet.agent.len() + 4 + 1);
}

#[test]
fn versions_have_a_fixed_layout() {
    let version = VersionPacket {
        version: 3,
        services: 0x0102_0304_0506_0708,
        time: 9,
        remote: NetAddress {
            time: 1,
            services: 2,
            address: address("1.2.3.4:5").ip(),
            port: 0x1234,
        },
        nonce: [7; 8],
        agent: "/é/".to_owned(),
        height: Height(11),
        no_relay: true,
    };
    let payload = Packet::Version(version.clone()).encode_payload().unwrap();
    assert_eq!(&payload[..4], &[3, 0, 0, 0]);
    assert_eq!(&payload[4..12], &[8, 7, 6, 5, 4, 3, 2, 1]);
    assert_eq!(payload[36], 0);
    assert_eq!(
        &payload[37..53],
        &[0, 0, 0, 0, 0, 0, 0, 0, 0, 0, 0xff, 0xff, 1, 2, 3, 4]
    );
    assert_eq!(&payload[73..75], &[0x34, 0x12]);
    assert_eq!(payload[116], 4);
    assert_eq!(&payload[117..121], "/é/".as_bytes());
    assert_eq!(&payload[121..], &[11, 0, 0, 0, 1]);
    assert_eq!(
        Packet::decode_payload(0, &payload).unwrap(),
        Packet::Version(version)
    );

    let mut broken = payload.clone();
    broken[118] = 0xff;
    assert_eq!(
        Packet::decode_payload(0, &broken).unwrap_err(),
        P2pError::Parse(ParseError::InvalidDnsLabel)
    );
    assert_eq!(
        Packet::decode_payload(0, &payload[..120]).unwrap_err(),
        P2pError::Parse(ParseError::UnexpectedEof)
    );
    let mut longer = payload;
    longer.push(0);
    assert_eq!(
        Packet::decode_payload(0, &longer).unwrap_err(),
        P2pError::TrailingBytes
    );
}

#[test]
fn addresses_of_other_types_are_unknown() {
    let mut payload = Packet::Addr(AddrPacket {
        items: vec![NetAddress::from_socket(address("1.2.3.4:5"), 1)],
    })
    .encode_payload()
    .unwrap();
    payload[1 + 16] = 1;
    match Packet::decode_payload(5, &payload).unwrap() {
        Packet::Addr(addresses) => {
            assert_eq!(
                addresses.items[0].address,
                IpAddr::V6(Ipv6Addr { bits: 0 })
            );
            assert!(addresses.service_sockets(1).is_empty());
        }
        other => panic!("unexpected packet: {other:?}"),
    }
}

#[test]
fn limits_hold_in_both_directions() {
    let long = VersionPacket {
        agent: "x".repeat(256),
        ..VersionPacket::default()
    };
    assert_eq!(
        Packet::Version(long).encode_payload().unwrap_err(),
        P2pError::AgentTooLong
    );
    let many = Packet::Addr(AddrPacket {
        items: vec![NetAddress::default(); MAX_ADDR + 1],
    });
    assert_eq!(many.encode_payload().unwrap_err(), P2pError::CountLimit);
    assert_eq!(
        Packet::decode_payload(5, &[0xfd, 0xe9, 0x03]).unwrap_err(),
        P2pError::CountLimit
    );
    let huge = Packet::Unknown {
        packet_type: 99,
        payload: vec![0; MAX_MESSAGE + 1],
    };
    assert_eq!(
        encode_frame(&mainnet(), &huge).unwrap_err(),
        P2pError::MessageTooLarge
    );
}

#[test]
fn proofs_round_trip() {
    let request = Packet::GetProof(ProofRequest {
        root: Digest::new([1; 32]),
        key: Digest::new([2; 32]),
    });
    let payload = request.encode_payload().unwrap();
    assert_eq!(payload.len(), 64);
    assert_eq!(Packet::decode_payload(26, &payload).unwrap(), request);
    let proof = Packet::Proof(ProofPacket {
        root: Digest::new([1; 32]),
        key: Digest::new([2; 32]),
        proof: vec![0xaa, 0xbb],
    });
    let payload = proof.encode_payload().unwrap();
    assert_eq!(Packet::decode_payload(27, &payload).unwrap(), proof);
}

#[test]
fn frame_round_trip() {
    let network = mainnet();
    let packet = Packet::Ping([7u8; 8]);

    let frame = encode_frame(&network, &packet).unwrap();
    let decoded = decode_frame(&network, &frame).unwrap().unwrap();

    assert_eq!(decoded.0, packet);
    assert_eq!(decoded.1, FRAME_HEADER_SIZE + 8);
    assert_eq!(&frame[..9], &[0xd3, 0xf2, 0x6e, 0x5b, 2, 8, 0, 0, 0]);
    assert_eq!(
        FrameHeader::parse(&frame).unwrap(),
        FrameHeader {
            magic: network.magic,
            packet_type: 2,
            payload_len: 8
        }
    );
}

#[test]
fn frame_decoder_handles_split_frames() {
    let network = mainnet();
    let packet = Packet::Pong([9u8; 8]);
    let frame = encode_frame(&network, &packet).unwrap();
    let split = FRAME_HEADER_SIZE + 3;
    let mut decoder = FrameDecoder::new(&network);

    assert!(decoder.feed(&frame[..split]).unwrap().is_empty());
    assert_eq!(decoder.buffered_len(), split);
    assert_eq!(decoder.feed(&frame[split..]).unwrap(), vec![packet]);
    assert_eq!(decoder.buffered_len(), 0);
}

#[test]
fn frame_decoder_rejects_wrong_magic() {
    let network = mainnet();
    let mut frame = encode_frame(&network, &Packet::Verack).unwrap();
    frame[0] ^= 0xff;

    assert_eq!(
        decode_frame(&network, &frame).unwrap_err(),
        P2pError::InvalidMagic,
    );
}

#[test]
fn streams_can_be_fed_byte_by_byte() {
    let network = mainnet();
    let mut stream = encode_frame(&network, &Packet::Verack).unwrap();
    stream.extend(encode_frame(&network, &Packet::Ping([3; 8])).unwrap());
    let mut decoder = FrameDecoder::new(&network);
    let mut packets = Vec::new();
    for byte in &stream {
        packets.extend(decoder.feed(&[*byte]).unwrap());
    }
    assert_eq!(packets, vec![Packet::Verack, Packet::Ping([3; 8])]);
    let mut again = FrameDecoder::new(&network);
    assert_eq!(again.feed(&stream).unwrap(), packets);
    assert_eq!(
        again.feed(&vec![0; MAX_MESSAGE + FRAME_HEADER_SIZE + 1]).unwrap_err(),
        P2pError::MessageTooLarge
    );
}

/// Two connections whose transports are byte queues.
fn deliver(to: &mut PeerConnection, bytes: Vec<u8>) -> Packet {
    to.accept(&bytes).unwrap().unwrap()
}

#[test]
fn connections_handshake_and_exchange_data() {
    let network = mainnet();
    let mut client = PeerConnection::new(network.clone());
    let mut server = PeerConnection::new(network);
    let genesis = mainnet_genesis();
    let root = Digest::new([1; 32]);
    let key = Digest::new([2; 32]);
    let mut session = HeaderSyncSession::new(VersionPacket::default());

    let hello = hns_browser::sync::apply_action(session.start()).unwrap();
    let got = deliver(&mut server, client.send_packet(&hello).unwrap());
    assert!(matches!(got, Packet::Version(_)));

    let mut reply = server
        .send_packet(&Packet::Version(VersionPacket::default()))
        .unwrap();
    reply.extend(server.send_packet(&Packet::Verack).unwrap());
    let version = deliver(&mut client, reply);
    let turn = PeerConnection::handshake(&mut session, version);
    assert_eq!(turn.send, vec![Packet::Verack]);
    assert_eq!(turn.next, PeerNext::Receive);
    let verack = client.receive_packet().unwrap();
    let turn = PeerConnection::handshake(&mut session, verack);
    match turn.next {
        PeerNext::Done(PeerOutcome::Version(remote)) => {
            assert_eq!(remote.services & SERVICE_NETWORK, SERVICE_NETWORK);
        }
        other => panic!("unexpected turn: {other:?}"),
    }
    assert!(client.receive_packet().is_none());

    let peer = address("127.0.0.1:4321");
    assert_eq!(
        PeerConnection::request_addresses(Packet::Addr(AddrPacket {
            items: vec![NetAddress::from_socket(peer, SERVICE_NETWORK)],
        })),
        AddressTurn::Done(vec![peer])
    );
    assert_eq!(
        PeerConnection::request_addresses(Packet::Ping([5; 8])),
        AddressTurn::Send(Packet::Pong([5; 8]))
    );
    assert_eq!(
        PeerConnection::request_addresses(Packet::Version(VersionPacket::default())),
        AddressTurn::Fail(P2pError::UnexpectedAction)
    );

    let request = PeerConnection::request_headers(
        &mut session,
        vec![mainnet_genesis_hash()],
        Digest::zero(),
    )
    .unwrap();
    let got = deliver(&mut server, client.send_packet(&request).unwrap());
    match got {
        Packet::GetHeaders(request) => {
            assert_eq!(request.locator, vec![mainnet_genesis_hash()]);
            assert_eq!(request.stop, Digest::zero());
        }
        other => panic!("unexpected packet: {other:?}"),
    }
    let turn = PeerConnection::take_headers(
        &mut session,
        Packet::Headers(HeadersPacket {
            items: vec![genesis.copy()],
        }),
    );
    assert_eq!(
        turn.next,
        PeerNext::Done(PeerOutcome::Headers(vec![genesis]))
    );

    let request = PeerConnection::request_proof(&mut session, root, key).unwrap();
    assert_eq!(request, Packet::GetProof(ProofRequest { root, key }));
    let proof = ProofPacket {
        root,
        key,
        proof: vec![0xaa, 0xbb, 0xcc],
    };
    let turn = PeerConnection::take_proof(&mut session, Packet::Proof(proof.clone()));
    assert_eq!(turn.next, PeerNext::Done(PeerOutcome::Proof(proof)));

    assert_eq!(client.accept(&[]).unwrap_err(), P2pError::ConnectionClosed);
}

#[test]
fn sync_session_performs_version_handshake() {
    let mut session = HeaderSyncSession::new(VersionPacket::default());

    assert!(matches!(
        session.start(),
        HeaderSyncAction::Send(Packet::Version(_)),
    ));
    assert_eq!(
        session.on_packet(Packet::Version(VersionPacket::default())),
        vec![HeaderSyncAction::Send(Packet::Verack)],
    );
    assert_eq!(session.state(), HeaderSyncState::AwaitingVerack);
    assert_eq!(
        session.on_packet(Packet::Verack),
        vec![HeaderSyncAction::Ready],
    );
    assert_eq!(session.state(), HeaderSyncState::Ready);
}

#[test]
fn sync_session_ignores_advisory_packets_during_handshake() {
    let mut session = HeaderSyncSession::new(VersionPacket::default());

    assert!(session
        .on_packet(Packet::Unknown {
            packet_type: 99,
            payload: vec![1, 2, 3],
        })
        .is_empty());
    assert_eq!(session.state(), HeaderSyncState::AwaitingVersion);
    assert_eq!(
        session.on_packet(Packet::Version(VersionPacket::default())),
        vec![HeaderSyncAction::Send(Packet::Verack)],
    );
    assert!(session.on_packet(Packet::SendHeaders).is_empty());
    assert_eq!(session.state(), HeaderSyncState::AwaitingVerack);
    assert_eq!(
        session.on_packet(Packet::Verack),
        vec![HeaderSyncAction::Ready],
    );
    assert_eq!(session.state(), HeaderSyncState::Ready);
}

#[test]
fn sync_session_accepts_verack_before_version() {
    let mut session = HeaderSyncSession::new(VersionPacket::default());

    assert!(session.on_packet(Packet::Verack).is_empty());
    assert_eq!(session.state(), HeaderSyncState::AwaitingVersion);
    assert_eq!(
        session.on_packet(Packet::Version(VersionPacket::default())),
        vec![
            HeaderSyncAction::Send(Packet::Verack),
            HeaderSyncAction::Ready
        ],
    );
    assert_eq!(session.state(), HeaderSyncState::Ready);
}

#[test]
fn sync_session_requests_and_receives_headers() {
    let mut session = ready_session();
    let genesis = mainnet_genesis();
    let locator = vec![mainnet_genesis_hash()];

    assert_eq!(
        session
            .request_headers(locator.clone(), Digest::zero())
            .unwrap(),
        HeaderSyncAction::Send(Packet::GetHeaders(LocatorPacket {
            locator,
            stop: Digest::zero(),
        })),
    );
    assert_eq!(session.state(), HeaderSyncState::HeadersRequested);
    assert_eq!(
        session.on_packet(Packet::Headers(HeadersPacket {
            items: vec![genesis.copy()],
        })),
        vec![HeaderSyncAction::Headers(vec![genesis])],
    );
    assert_eq!(session.state(), HeaderSyncState::Ready);
}

#[test]
fn sync_session_ignores_advisory_packets_while_waiting_for_headers() {
    let mut session = ready_session();
    let genesis = mainnet_genesis();

    session
        .request_headers(vec![mainnet_genesis_hash()], Digest::zero())
        .unwrap();

    assert!(session.on_packet(Packet::SendHeaders).is_empty());
    assert!(session
        .on_packet(Packet::Unknown {
            packet_type: 100,
            payload: Vec::new(),
        })
        .is_empty());
    assert_eq!(session.state(), HeaderSyncState::HeadersRequested);
    assert_eq!(
        session.on_packet(Packet::Headers(HeadersPacket {
            items: vec![genesis.copy()],
        })),
        vec![HeaderSyncAction::Headers(vec![genesis])],
    );
}

#[test]
fn sync_session_rejects_peer_without_network_service() {
    let mut session = HeaderSyncSession::new(VersionPacket::default());
    let version = VersionPacket {
        services: 0,
        ..VersionPacket::default()
    };

    let actions = session.on_packet(Packet::Version(version));
    assert_eq!(
        actions,
        vec![HeaderSyncAction::Disconnect(DisconnectReason::MissingService)],
    );
    assert_eq!(
        DisconnectReason::MissingService.text(),
        "peer lacks required network service"
    );
    assert_eq!(session.state(), HeaderSyncState::Closed);
}

#[test]
fn closed_and_unready_sessions_refuse_work() {
    let mut closed = HeaderSyncSession::new(VersionPacket::default());
    closed.on_packet(Packet::Version(VersionPacket {
        services: 0,
        ..VersionPacket::default()
    }));
    assert_eq!(
        closed.on_packet(Packet::Verack),
        vec![HeaderSyncAction::Disconnect(DisconnectReason::Closed)]
    );
    let mut early = HeaderSyncSession::new(VersionPacket::default());
    assert_eq!(
        early.request_proof(Digest::zero(), Digest::zero()),
        HeaderSyncAction::Disconnect(DisconnectReason::ProofBeforeReady)
    );
    assert_eq!(
        PeerConnection::request_headers(&mut early, Vec::new(), Digest::zero()).unwrap_err(),
        P2pError::SessionDisconnected(DisconnectReason::HeadersBeforeReady)
    );
    let mut ready = ready_session();
    assert_eq!(
        ready.on_packet(Packet::Headers(HeadersPacket { items: Vec::new() })),
        vec![HeaderSyncAction::Disconnect(DisconnectReason::UnexpectedPacket)]
    );
}

fn ready_session() -> HeaderSyncSession {
    let mut session = HeaderSyncSession::new(VersionPacket::default());
    session.on_packet(Packet::Version(VersionPacket::default()));
    session.on_packet(Packet::Verack);
    session
}

use hns_browser::addr::{IpAddr, Ipv4Addr, SocketAddr};
use hns_browser::frame::{decode_frame, encode_frame, FrameHeader, NetworkParameters};
use hns_browser::http1::IoKind;
use hns_browser::packet::{Height, Packet, PacketType, VersionPacket, SERVICE_NETWORK};
use hns_browser::peers::{PeerManager, BAN_SCORE};
use hns_browser::relay::{
    prepare_dns_relay_query, validate_dns_relay_response, DnsMessage, DnsQuestion, DnsRecord,
    DnsRelayPacket, DnsRelayStatus, DnsRelayValidationError, GetDnsRelayPacket,
    EXPERIMENTAL_DNS_RELAY, EXPERIMENTAL_DNS_RELAY_SERVICE, EXPERIMENTAL_GET_DNS_RELAY,
    MAX_DNS_RELAY_QUERY_SIZE, MAX_DNS_RELAY_REQUEST_PAYLOAD_SIZE,
    MAX_DNS_RELAY_RESPONSE_PAYLOAD_SIZE, MAX_DNS_RELAY_RESPONSE_SIZE,
};
use hns_browser::relay_client::{
    check_response, deadline_io_error, judge_draw, relay_requester_version, remaining_until,
    AttemptFailure, AttemptPeerAction, ConnectAttempt, DnsRelayClient, DnsRelayClientError,
    DnsRelayExchange, Draw, ExchangeNext, FrameWrite, RelayExchange, RelayHandshake,
    Replenishment, Resolution, DEFAULT_DNS_RELAY_TIMEOUT_SECONDS,
    MAX_ADVISORY_PACKETS_PER_EXCHANGE, MAX_DNS_RELAY_HANDSHAKE_ATTEMPTS_PER_RESOLUTION,
    MAX_PACKETS_PER_HANDSHAKE,
};
use hns_browser::selection::DnsRelayPeerCapability;
use hns_browser::sync::{PeerNext, PeerOutcome};
use hns_browser::wire::{P2pError, RelayPacketFault};
use std::collections::{HashMap, VecDeque};

fn mainnet() -> NetworkParameters {
    NetworkParameters {
        name: "mainnet".to_owned(),
        magic: 0x5b6e_f2d3,
        port: 12_038,
        dns_seeds: Vec::new(),
    }
}

fn address(octets: [u8; 4]) -> SocketAddr {
    SocketAddr::new(
        IpAddr::V4(Ipv4Addr::new(octets[0], octets[1], octets[2], octets[3])),
        12_038,
    )
}

// A reader of DNS messages, enough for the messages below.

fn number(bytes: &[u8], at: usize) -> Option<u16> {
    Some(u16::from_be_bytes([*bytes.get(at)?, *bytes.get(at + 1)?]))
}

fn read_name(bytes: &[u8], at: &mut usize) -> Option<Vec<String>> {
    let mut labels = Vec::new();
    loop {
        let len = *bytes.get(*at)? as usize;
        *at += 1;
        if len == 0 {
            return Some(labels);
        }
        if len > 63 {
            return None;
        }
        let label = bytes.get(*at..*at + len)?;
        labels.push(String::from_utf8(label.to_vec()).ok()?.to_lowercase());
        *at += len;
    }
}

fn parse(bytes: &[u8]) -> Option<DnsMessage> {
    let mut at = 12;
    let mut questions = Vec::new();
    for _ in 0..number(bytes, 4)? {
        let labels = read_name(bytes, &mut at)?;
        questions.push(DnsQuestion {
            labels,
            record_type: number(bytes, at)?,
            class: number(bytes, at + 2)?,
        });
        at += 4;
    }
    let answer_count = number(bytes, 6)? as usize;
    let authority_count = number(bytes, 8)? as usize;
    let mut records = Vec::new();
    for _ in 0..answer_count + authority_count + number(bytes, 10)? as usize {
        let labels = read_name(bytes, &mut at)?;
        let ttl = (number(bytes, at + 4)? as u32) << 16 | number(bytes, at + 6)? as u32;
        let len = number(bytes, at + 8)? as usize;
        records.push(DnsRecord {
            labels,
            record_type: number(bytes, at)?,
            class: number(bytes, at + 2)?,
            ttl,
            rdata: bytes.get(at + 10..at + 10 + len)?.to_vec(),
        });
        at += 10 + len;
    }
    if at != bytes.len() {
        return None;
    }
    Some(DnsMessage {
        id: number(bytes, 0)?,
        flags: number(bytes, 2)?,
        questions,
        answer_count,
        authority_count,
        additionals: records.split_off(answer_count + authority_count),
    })
}

/// Whether the last label of a message's name is one that can be registered.
fn root_valid(message: Option<&DnsMessage>) -> bool {
    message
        .and_then(|message| message.questions.first())
        .and_then(|question| question.labels.last())
        .is_some_and(|label| !label.starts_with('-') && !label.ends_with('-'))
}

fn prepare(query: &[u8]) -> Result<Vec<u8>, DnsRelayValidationError> {
    let parsed = parse(query);
    prepare_dns_relay_query(query, parsed.as_ref(), root_valid(parsed.as_ref()))
}

fn validate(query: &[u8], response: &[u8]) -> Result<(), DnsRelayValidationError> {
    let asked = parse(query);
    let answered = parse(response);
    match validate_dns_relay_response(
        query.len(),
        asked.as_ref(),
        root_valid(asked.as_ref()),
        response.len(),
        answered.as_ref(),
    ) {
        None => Ok(()),
        Some(error) => Err(error),
    }
}

/// Asks for the address of `www.handshake`, with signatures.
fn basic_query() -> Vec<u8> {
    let mut query = vec![0x12, 0x34, 0x01, 0x10, 0, 1, 0, 0, 0, 0, 0, 1];
    query.extend(b"\x03www\x09handshake\x00");
    query.extend([0, 1, 0, 1]);
    query.extend([0, 0, 41, 0x10, 0, 0, 0, 0x80, 0, 0, 0]);
    query
}

/// Answers the query above.
fn basic_response() -> Vec<u8> {
    let mut response = vec![0x12, 0x34, 0x81, 0x90, 0, 1, 0, 1, 0, 0, 0, 0];
    response.extend(b"\x03www\x09handshake\x00");
    response.extend([0, 1, 0, 1]);
    response.extend(b"\x03www\x09handshake\x00");
    response.extend([0, 1, 0, 1, 0, 0, 0, 60, 0, 4, 127, 0, 0, 1]);
    response
}

fn request_wire(id: u64, query: &[u8]) -> Vec<u8> {
    let mut wire = id.to_le_bytes().to_vec();
    wire.extend((query.len() as u16).to_le_bytes());
    wire.extend(query);
    wire
}

fn response_wire(id: u64, status: u8, response: &[u8]) -> Vec<u8> {
    let mut wire = id.to_le_bytes().to_vec();
    wire.push(status);
    wire.extend((response.len() as u16).to_le_bytes());
    wire.extend(response);
    wire
}

#[test]
fn request_fixtures_are_canonical_and_strict() {
    for wire in [
        request_wire(1, &basic_query()),
        request_wire(u64::MAX, &vec![7; MAX_DNS_RELAY_QUERY_SIZE]),
    ] {
        let packet = GetDnsRelayPacket::decode(&wire).unwrap();
        assert_eq!(packet.encode().unwrap(), wire);
        assert_ne!(packet.request_id, 0);
    }
    let mut malformed = request_wire(1, &basic_query());
    malformed[8] += 1;
    assert!(GetDnsRelayPacket::decode(&malformed).is_err());
    let mut trailing = request_wire(1, &basic_query());
    trailing.push(0);
    assert!(GetDnsRelayPacket::decode(&trailing).is_err());
    assert_eq!(
        GetDnsRelayPacket::decode(&request_wire(1, &vec![0; MAX_DNS_RELAY_QUERY_SIZE + 1])),
        Err(P2pError::DnsRelayQueryTooLarge)
    );
    assert_eq!(
        GetDnsRelayPacket::decode(&request_wire(0, &basic_query())),
        Err(P2pError::InvalidDnsRelayRequestId)
    );
    assert_eq!(
        GetDnsRelayPacket::decode(&request_wire(1, &[])),
        Err(P2pError::InvalidDnsRelayPacket(RelayPacketFault::EmptyQuery))
    );
}

#[test]
fn response_fixtures_are_canonical_and_strict() {
    for wire in [
        response_wire(1, 0, &basic_response()),
        response_wire(2, 2, &[]),
        response_wire(3, 0, &vec![1; MAX_DNS_RELAY_RESPONSE_SIZE]),
    ] {
        let packet = DnsRelayPacket::decode(&wire).unwrap();
        assert_eq!(packet.encode().unwrap(), wire);
    }
    assert_eq!(
        DnsRelayPacket::decode(&response_wire(1, 8, &[])),
        Err(P2pError::InvalidDnsRelayStatus)
    );
    let mut oversized = response_wire(1, 0, &vec![1; MAX_DNS_RELAY_RESPONSE_SIZE]);
    oversized.push(0);
    assert_eq!(
        DnsRelayPacket::decode(&oversized),
        Err(P2pError::TrailingBytes)
    );
    assert!(DnsRelayPacket::decode(&response_wire(0, 0, &basic_response())).is_err());
    assert!(DnsRelayPacket::decode(&response_wire(1, 0, &[])).is_err());
    assert!(DnsRelayPacket::decode(&response_wire(1, 2, &[1])).is_err());
}

#[test]
fn experimental_constants_and_service_bit_round_trip() {
    assert_eq!(EXPERIMENTAL_DNS_RELAY_SERVICE, 0x4000_0000);
    assert_eq!(EXPERIMENTAL_GET_DNS_RELAY, 0xf0);
    assert_eq!(EXPERIMENTAL_DNS_RELAY, 0xf1);

    let packet = Packet::Version(VersionPacket {
        services: SERVICE_NETWORK | EXPERIMENTAL_DNS_RELAY_SERVICE,
        ..VersionPacket::default()
    });
    let payload = packet.encode_payload().unwrap();
    assert_eq!(
        Packet::decode_payload(PacketType::Version.code(), &payload).unwrap(),
        packet
    );
}

#[test]
fn unknown_packet_reencoding_preserves_private_type_byte() {
    let network = mainnet();
    let packet = Packet::decode_payload(0xee, &[1, 2, 3]).unwrap();
    assert_eq!(packet.raw_packet_type(), 0xee);
    let frame = encode_frame(&network, &packet).unwrap();
    assert_eq!(frame[4], 0xee);
    assert_eq!(
        decode_frame(&network, &frame).unwrap().unwrap().0,
        packet
    );
}

#[test]
fn frame_header_rejects_relay_payload_limits_before_body_arrives() {
    let network = mainnet();
    for (packet_type, payload_len, expected) in [
        (
            EXPERIMENTAL_GET_DNS_RELAY,
            MAX_DNS_RELAY_REQUEST_PAYLOAD_SIZE + 1,
            P2pError::DnsRelayQueryTooLarge,
        ),
        (
            EXPERIMENTAL_DNS_RELAY,
            MAX_DNS_RELAY_RESPONSE_PAYLOAD_SIZE + 1,
            P2pError::DnsRelayResponseTooLarge,
        ),
    ] {
        let mut header = Vec::new();
        FrameHeader {
            magic: network.magic,
            packet_type,
            payload_len: payload_len as u32,
        }
        .encode(&mut header);
        assert_eq!(decode_frame(&network, &header), Err(expected));
    }
}

#[test]
fn query_preparation_sets_rd_and_cd_without_mutating_input() {
    let mut query = basic_query();
    query[2] &= !0x01;
    query[3] &= !0x10;
    let original = query.clone();
    let prepared = prepare(&query).unwrap();
    assert_eq!(query, original);
    assert_ne!(prepared[2] & 0x01, 0);
    assert_ne!(prepared[3] & 0x10, 0);
    assert_eq!(prepared, basic_query());
}

#[test]
fn query_preparation_rejects_ecs_and_missing_do() {
    let mut no_do = basic_query();
    let ttl_offset = no_do.len() - 6;
    no_do[ttl_offset + 2] &= !0x80;
    assert_eq!(
        prepare(&no_do),
        Err(DnsRelayValidationError::DnssecOkRequired)
    );

    let mut ecs = basic_query();
    let rdlength = ecs.len() - 2;
    ecs[rdlength..].copy_from_slice(&[0, 4]);
    ecs.extend([0, 8, 0, 0]);
    assert_eq!(
        prepare(&ecs),
        Err(DnsRelayValidationError::EdnsClientSubnetForbidden)
    );
}

#[test]
fn query_preparation_enforces_the_complete_relay_profile() {
    let mut response_flag = basic_query();
    response_flag[2] |= 0x04;
    assert_eq!(
        prepare(&response_flag),
        Err(DnsRelayValidationError::InvalidQueryFlags),
    );

    let mut unsupported_type = basic_query();
    unsupported_type[27..29].copy_from_slice(&255u16.to_be_bytes());
    assert_eq!(
        prepare(&unsupported_type),
        Err(DnsRelayValidationError::UnsupportedQuestionType),
    );

    let mut invalid_root = basic_query();
    invalid_root[17] = b'-';
    assert_eq!(
        prepare(&invalid_root),
        Err(DnsRelayValidationError::InvalidHnsRoot),
    );

    let mut small_edns = basic_query();
    let class_offset = small_edns.len() - 8;
    small_edns[class_offset..class_offset + 2].copy_from_slice(&511u16.to_be_bytes());
    assert_eq!(
        prepare(&small_edns),
        Err(DnsRelayValidationError::InvalidEdnsSize),
    );

    let mut future_edns = basic_query();
    let ttl_offset = future_edns.len() - 6;
    future_edns[ttl_offset + 1] = 1;
    assert_eq!(
        prepare(&future_edns),
        Err(DnsRelayValidationError::InvalidEdns),
    );

    let mut unknown_option = basic_query();
    let rdlength_offset = unknown_option.len() - 2;
    unknown_option[rdlength_offset..].copy_from_slice(&4u16.to_be_bytes());
    unknown_option.extend([0, 15, 0, 0]);
    assert_eq!(
        prepare(&unknown_option),
        Err(DnsRelayValidationError::InvalidEdns),
    );

    let mut padding = basic_query();
    let rdlength_offset = padding.len() - 2;
    padding[rdlength_offset..].copy_from_slice(&6u16.to_be_bytes());
    padding.extend([0, 12, 0, 2, 0, 0]);
    prepare(&padding).unwrap();
}

#[test]
fn query_preparation_names_the_first_fault() {
    assert_eq!(
        prepare(&vec![0; MAX_DNS_RELAY_QUERY_SIZE + 1]),
        Err(DnsRelayValidationError::MessageTooLarge)
    );
    assert_eq!(prepare(&[1, 2]), Err(DnsRelayValidationError::MalformedMessage));
    let mut answered = basic_query();
    answered[2] |= 0x80;
    assert_eq!(
        prepare(&answered),
        Err(DnsRelayValidationError::NotStandardQuery)
    );
    let mut class = basic_query();
    class[30] = 3;
    assert_eq!(
        prepare(&class),
        Err(DnsRelayValidationError::InvalidQuestionClass)
    );
    let bare = &basic_query()[..31];
    let mut bare = bare.to_vec();
    bare[11] = 0;
    assert_eq!(prepare(&bare), Err(DnsRelayValidationError::InvalidEdns));
    let mut none = basic_query()[..12].to_vec();
    none[5] = 0;
    none[11] = 0;
    assert_eq!(
        prepare(&none),
        Err(DnsRelayValidationError::InvalidQuestionCount)
    );
}

#[test]
fn response_validation_checks_id_question_and_recursive_flags() {
    let query = basic_query();
    let response = basic_response();
    validate(&query, &response).unwrap();

    let mut wrong_id = response.clone();
    wrong_id[1] ^= 1;
    assert_eq!(
        validate(&query, &wrong_id),
        Err(DnsRelayValidationError::ResponseIdMismatch)
    );
    let mut wrong_question = response.clone();
    wrong_question[28] = 28;
    assert_eq!(
        validate(&query, &wrong_question),
        Err(DnsRelayValidationError::ResponseQuestionMismatch)
    );
    let mut not_response = response.clone();
    not_response[2] &= !0x80;
    assert_eq!(
        validate(&query, &not_response),
        Err(DnsRelayValidationError::NotStandardQuery)
    );
    let mut wrong_opcode = response.clone();
    wrong_opcode[2] |= 0x08;
    assert_eq!(
        validate(&query, &wrong_opcode),
        Err(DnsRelayValidationError::NotStandardQuery)
    );
    let mut compression_loop = response.clone();
    compression_loop[12..14].copy_from_slice(&[0xc0, 0x0c]);
    assert_eq!(
        validate(&query, &compression_loop),
        Err(DnsRelayValidationError::MalformedMessage)
    );
    let mut no_cd = response.clone();
    no_cd[3] &= !0x10;
    validate(&query, &no_cd).unwrap();
    let mut no_ra = response;
    no_ra[3] &= !0x80;
    assert_eq!(
        validate(&query, &no_ra),
        Err(DnsRelayValidationError::InvalidRecursiveFlags)
    );
}

#[test]
fn relay_selection_requires_live_capability_and_prefers_diversity() {
    let first = address([10, 1, 0, 1]);
    let same_group = address([10, 1, 0, 2]);
    let diverse = address([10, 2, 0, 1]);
    let incapable = address([10, 3, 0, 1]);
    let cooling = address([10, 4, 0, 1]);
    let banned = address([10, 5, 0, 1]);
    let mut peers = PeerManager::default();
    for peer in [first, same_group, diverse, incapable, cooling, banned] {
        peers.upsert(peer);
    }
    peers.record_success(first, Height(100), 1);
    peers.record_success(same_group, Height(99), 1);
    peers.record_success(diverse, Height(98), 1);
    peers.record_malformed(banned, 1, 100);

    let capable = |address, services, cooldown_until| DnsRelayPeerCapability {
        address,
        services,
        fully_handshaken: true,
        cooldown_until,
    };
    let selected = peers.select_dns_relay(
        &[
            capable(first, EXPERIMENTAL_DNS_RELAY_SERVICE, None),
            capable(same_group, EXPERIMENTAL_DNS_RELAY_SERVICE, None),
            capable(diverse, EXPERIMENTAL_DNS_RELAY_SERVICE, None),
            capable(incapable, 0, None),
            capable(cooling, EXPERIMENTAL_DNS_RELAY_SERVICE, Some(20)),
            capable(banned, EXPERIMENTAL_DNS_RELAY_SERVICE, None),
        ],
        2,
        10,
        None,
    );
    assert_eq!(selected, vec![first, diverse]);
}

#[test]
fn relay_selection_prefers_non_proof_peer_but_falls_back() {
    let proof = address([10, 1, 0, 1]);
    let other = address([10, 2, 0, 1]);
    let mut peers = PeerManager::default();
    peers.upsert(proof);
    peers.upsert(other);
    let capabilities = [proof, other].map(|address| DnsRelayPeerCapability {
        address,
        services: EXPERIMENTAL_DNS_RELAY_SERVICE,
        fully_handshaken: true,
        cooldown_until: None,
    });
    assert_eq!(
        peers.select_dns_relay(&capabilities, 2, 1, Some(proof)),
        vec![other, proof]
    );
    assert_eq!(
        peers.select_dns_relay(&capabilities[..1], 1, 1, Some(proof)),
        vec![proof]
    );
}

// Connections whose peers answer from a script.

#[derive(Clone)]
enum FakeResponse {
    Success(Vec<u8>),
    Duplicate(Vec<u8>),
    Advisory(Vec<u8>),
    Status(DnsRelayStatus),
    WrongId(Vec<u8>),
    UnknownStatus,
    Disconnect,
}

struct FakeConnection {
    response: FakeResponse,
    sent: Vec<Packet>,
    queued: VecDeque<Packet>,
    local_services: u64,
}

impl FakeConnection {
    fn send_packet(&mut self, packet: Packet) {
        if let Packet::GetDnsRelay(request) = &packet {
            let id = request.request_id;
            let success = |id: u64, response: &Vec<u8>| {
                DnsRelayPacket::new(id, DnsRelayStatus::Success, response.clone()).unwrap()
            };
            let response = match &self.response {
                FakeResponse::Success(response)
                | FakeResponse::Duplicate(response)
                | FakeResponse::Advisory(response) => Some(success(id, response)),
                FakeResponse::Status(status) => {
                    Some(DnsRelayPacket::new(id, *status, Vec::new()).unwrap())
                }
                FakeResponse::WrongId(response) => {
                    Some(success(id.wrapping_add(1).max(1), response))
                }
                FakeResponse::UnknownStatus | FakeResponse::Disconnect => None,
            };
            if matches!(self.response, FakeResponse::Advisory(_)) {
                self.queued.push_back(Packet::Ping([42; 8]));
                self.queued.push_back(Packet::GetAddr);
            }
            if let Some(response) = response {
                self.queued.push_back(Packet::DnsRelay(response.copy()));
                if matches!(self.response, FakeResponse::Duplicate(_)) {
                    self.queued.push_back(Packet::DnsRelay(response));
                }
            }
        }
        self.sent.push(packet);
    }

    fn receive_packet(&mut self) -> Result<Packet, P2pError> {
        if matches!(self.response, FakeResponse::UnknownStatus) {
            return Err(P2pError::InvalidDnsRelayStatus);
        }
        self.queued.pop_front().ok_or(P2pError::ConnectionClosed)
    }
}

/// A client, its transports and the peers that can be reached.
struct Driver {
    client: DnsRelayClient,
    live: Vec<FakeConnection>,
    reachable: HashMap<SocketAddr, VecDeque<FakeResponse>>,
    services: HashMap<SocketAddr, u64>,
    connects: HashMap<SocketAddr, usize>,
}

impl Driver {
    fn new(known: &[SocketAddr], reachable: Vec<(SocketAddr, FakeResponse)>) -> Self {
        let mut manager = PeerManager::default();
        for peer in known {
            manager.upsert(*peer);
        }
        Self {
            client: DnsRelayClient::new(manager),
            live: Vec::new(),
            reachable: reachable
                .into_iter()
                .map(|(peer, response)| (peer, VecDeque::from([response])))
                .collect(),
            services: HashMap::new(),
            connects: HashMap::new(),
        }
    }

    fn connect(&mut self, address: SocketAddr, now: u64) {
        *self.connects.entry(address).or_default() += 1;
        let Some(response) = self
            .reachable
            .get_mut(&address)
            .and_then(VecDeque::pop_front)
        else {
            self.client
                .record_attempt(address, now, ConnectAttempt::ConnectFailed);
            return;
        };
        let services = self
            .services
            .get(&address)
            .copied()
            .unwrap_or(EXPERIMENTAL_DNS_RELAY_SERVICE);
        let mut handshake = RelayHandshake::new(relay_requester_version());
        let Packet::Version(local) = handshake.start().unwrap() else {
            panic!("a handshake starts with a version");
        };
        let remote = VersionPacket {
            services: services | SERVICE_NETWORK,
            height: Height(10),
            ..VersionPacket::default()
        };
        assert_eq!(
            handshake.on_packet(Packet::Version(remote)).next,
            PeerNext::Receive
        );
        let PeerNext::Done(PeerOutcome::Version(remote)) =
            handshake.on_packet(Packet::Verack).next
        else {
            panic!("the handshake is over");
        };
        if self.client.record_attempt(
            address,
            now,
            ConnectAttempt::Handshaken {
                services: remote.services,
            },
        ) {
            self.live.push(FakeConnection {
                response,
                sent: Vec::new(),
                queued: VecDeque::new(),
                local_services: local.services,
            });
        }
    }

    fn exchange(
        &mut self,
        index: usize,
        request_id: u64,
        query: &[u8],
    ) -> Result<Vec<u8>, AttemptFailure> {
        let mut exchange = RelayExchange::new(request_id);
        let request = exchange.start(query.to_vec())?;
        self.live[index].send_packet(request);
        loop {
            let packet = self.live[index]
                .receive_packet()
                .map_err(AttemptFailure::of_read)?;
            let turn = exchange.on_packet(self.client.is_pending(request_id), packet);
            if let Some(packet) = turn.send {
                self.live[index].send_packet(packet);
            }
            match turn.next {
                ExchangeNext::Receive => {}
                ExchangeNext::Check(response) => {
                    let asked = parse(query);
                    let answered = parse(&response);
                    return check_response(
                        query.len(),
                        asked.as_ref(),
                        root_valid(asked.as_ref()),
                        response,
                        answered.as_ref(),
                    );
                }
                ExchangeNext::Fail(failure) => return Err(failure),
            }
        }
    }

    fn resolve_at(
        &mut self,
        query: &[u8],
        now: u64,
    ) -> Result<DnsRelayExchange, DnsRelayClientError> {
        let query = prepare(query).map_err(DnsRelayClientError::InvalidQuery)?;
        let mut resolution = Resolution::new();
        loop {
            for index in self.client.drop_banned(now) {
                self.live.swap_remove(index);
            }
            let mut round = Replenishment::new(&self.client, now);
            while let Some(address) = resolution.next_candidate(&mut round, &self.client, now) {
                self.connect(address, now);
            }
            let (index, address) = resolution.select(&self.client, now)?;
            let request_id = self.client.allocate_request_id()?;
            self.client.begin_request(request_id);
            let result = self.exchange(index, request_id, &query);
            self.client.end_request(request_id);
            match result {
                Ok(response) => {
                    self.client.record_answer(address, now);
                    return Ok(resolution.answer(response, address));
                }
                Err(failure) => {
                    if self
                        .client
                        .record_failure(index, address, now, failure.peer_action)
                    {
                        self.live.swap_remove(index);
                    }
                    if !resolution.record_failure(failure, self.client.alternate_retries) {
                        return Err(resolution.error());
                    }
                }
            }
        }
    }

    fn report_dnssec_failure(&mut self, peer: SocketAddr, now: u64) -> bool {
        match self.client.report_dnssec_failure(peer, now) {
            Some(index) => {
                self.live.swap_remove(index);
                true
            }
            None => false,
        }
    }

    fn is_live(&self, peer: SocketAddr) -> bool {
        assert_eq!(self.live.len(), self.client.connections.len());
        self.client
            .connections
            .iter()
            .any(|connection| connection.address == peer)
    }

    fn requests(&self) -> usize {
        self.live
            .iter()
            .flat_map(|live| &live.sent)
            .filter(|packet| matches!(packet, Packet::GetDnsRelay(_)))
            .count()
    }
}

#[test]
fn client_reuses_connections_and_cleans_pending_requests() {
    let peer = address([10, 1, 0, 1]);
    let mut driver = Driver::new(&[peer], vec![(peer, FakeResponse::Success(basic_response()))]);
    driver.client.peer_manager_mut().upsert(peer).last_height = Height(7);
    driver.resolve_at(&basic_query(), 100).unwrap();
    driver.resolve_at(&basic_query(), 101).unwrap();
    assert_eq!(driver.client.connection_count(), 1);
    assert_eq!(driver.client.pending_len(), 0);
    assert_eq!(
        driver.client.peer_manager().get(peer).unwrap().last_height,
        Height(7)
    );
    assert_eq!(driver.live[0].local_services, 0);
    assert_eq!(driver.connects[&peer], 1);
    assert_eq!(driver.requests(), 2);
}

#[test]
fn client_retries_busy_peer_without_penalty_or_disconnect() {
    let busy = address([10, 1, 0, 1]);
    let good = address([10, 2, 0, 1]);
    let mut driver = Driver::new(
        &[busy, good],
        vec![
            (busy, FakeResponse::Status(DnsRelayStatus::Busy)),
            (good, FakeResponse::Success(basic_response())),
        ],
    );
    let exchange = driver.resolve_at(&basic_query(), 100).unwrap();
    assert_eq!(exchange.peer, good);
    assert_eq!(exchange.retries, 1);
    assert_eq!(driver.client.pending_len(), 0);
    let state = driver.client.peer_manager().get(busy).unwrap();
    assert_eq!(state.score, 0);
    assert_eq!(state.failures, 0);
    assert!(driver.client.cooldowns.get(busy).unwrap() > 100);
    assert!(
        driver.is_live(busy),
        "BUSY is a healthy application response and must not drop the transport"
    );
}

#[test]
fn client_does_not_penalize_or_cool_down_invalid_query_status() {
    let peer = address([10, 1, 0, 1]);
    let mut driver = Driver::new(
        &[peer],
        vec![(peer, FakeResponse::Status(DnsRelayStatus::InvalidQuery))],
    );

    assert!(matches!(
        driver.resolve_at(&basic_query(), 100),
        Err(DnsRelayClientError::Status(DnsRelayStatus::InvalidQuery))
    ));
    let state = driver.client.peer_manager().get(peer).unwrap();
    assert_eq!(state.score, 0);
    assert_eq!(state.failures, 0);
    assert!(driver.client.cooldowns.get(peer).is_none());
    assert_eq!(driver.client.connection_count(), 1);
}

#[test]
fn client_closes_unknown_status_without_penalty_or_cooldown() {
    let future = address([10, 1, 0, 1]);
    let good = address([10, 2, 0, 1]);
    let mut driver = Driver::new(
        &[future, good],
        vec![
            (future, FakeResponse::UnknownStatus),
            (good, FakeResponse::Success(basic_response())),
        ],
    );

    let exchange = driver.resolve_at(&basic_query(), 100).unwrap();
    assert_eq!(exchange.peer, good);
    assert_eq!(exchange.retries, 1);
    let state = driver.client.peer_manager().get(future).unwrap();
    assert_eq!(state.score, 0);
    assert_eq!(state.failures, 0);
    assert!(driver.client.cooldowns.get(future).is_none());
    assert!(!driver.is_live(future));
}

#[test]
fn valid_statuses_have_reasoned_retry_and_peer_actions() {
    for status in [
        DnsRelayStatus::Unsupported,
        DnsRelayStatus::Busy,
        DnsRelayStatus::ResolverUnavailable,
        DnsRelayStatus::Timeout,
        DnsRelayStatus::InternalError,
    ] {
        let failure = AttemptFailure::status(status);
        assert!(failure.retryable, "{status:?}");
        assert_eq!(
            failure.peer_action,
            AttemptPeerAction::Backoff,
            "{status:?}"
        );
    }

    let refused = AttemptFailure::status(DnsRelayStatus::Refused);
    assert!(refused.retryable);
    assert_eq!(refused.peer_action, AttemptPeerAction::Keep);

    let invalid = AttemptFailure::status(DnsRelayStatus::InvalidQuery);
    assert!(!invalid.retryable);
    assert_eq!(invalid.peer_action, AttemptPeerAction::Keep);
}

#[test]
fn advisory_packets_do_not_end_an_exchange() {
    let peer = address([10, 1, 0, 1]);
    let mut driver = Driver::new(
        &[peer],
        vec![(peer, FakeResponse::Advisory(basic_response()))],
    );

    driver.resolve_at(&basic_query(), 100).unwrap();
    assert_eq!(driver.live[0].sent.len(), 2);
    assert_eq!(driver.live[0].sent[1], Packet::Pong([42; 8]));
}

#[test]
fn client_bans_unsolicited_response_and_shuts_down_cleanly() {
    let peer = address([10, 1, 0, 1]);
    let mut driver = Driver::new(
        &[peer],
        vec![(peer, FakeResponse::WrongId(basic_response()))],
    );
    assert!(
        matches!(
            driver.resolve_at(&basic_query(), 100),
            Err(DnsRelayClientError::UnsolicitedResponse(_))
        ),
        "wrong request ID must fail closed"
    );
    assert!(driver
        .client
        .peer_manager()
        .get(peer)
        .unwrap()
        .is_banned(101));
    assert_eq!(driver.client.pending_len(), 0);
    driver.client.shutdown();
    assert_eq!(driver.client.connection_count(), 0);
}

#[test]
fn dnssec_failure_feedback_bans_live_peer_and_selects_alternate() {
    let first = address([10, 1, 0, 1]);
    let alternate = address([10, 2, 0, 1]);
    let mut driver = Driver::new(
        &[first, alternate],
        vec![
            (first, FakeResponse::Success(basic_response())),
            (alternate, FakeResponse::Success(basic_response())),
        ],
    );

    assert_eq!(driver.resolve_at(&basic_query(), 100).unwrap().peer, first);
    assert!(driver.report_dnssec_failure(first, 101));
    let first_state = driver.client.peer_manager().get(first).unwrap();
    assert!(first_state.score >= BAN_SCORE);
    assert!(first_state.is_banned(102));
    assert!(driver.client.cooldowns.get(first).unwrap() > 101);
    assert!(!driver.is_live(first));

    assert_eq!(
        driver.resolve_at(&basic_query(), 102).unwrap().peer,
        alternate
    );
    let score = driver.client.peer_manager().get(first).unwrap().score;
    assert!(!driver.report_dnssec_failure(first, 103));
    assert_eq!(
        driver.client.peer_manager().get(first).unwrap().score,
        score
    );
}

#[test]
fn client_never_sends_relay_packet_to_legacy_peer() {
    let legacy = address([10, 1, 0, 1]);
    let capable = address([10, 2, 0, 1]);
    let mut driver = Driver::new(
        &[legacy, capable],
        vec![
            (legacy, FakeResponse::Status(DnsRelayStatus::InternalError)),
            (capable, FakeResponse::Success(basic_response())),
        ],
    );
    driver.services.insert(legacy, 0);
    let exchange = driver.resolve_at(&basic_query(), 100).unwrap();
    assert_eq!(exchange.peer, capable);
    assert_eq!(driver.client.connection_count(), 1);
    assert_eq!(driver.client.connections[0].address, capable);
}

#[test]
fn client_bounds_handshake_attempts_when_all_peers_are_legacy() {
    let addresses = (1..=8)
        .map(|last| address([10, last, 0, 1]))
        .collect::<Vec<_>>();
    let mut driver = Driver::new(
        &addresses,
        addresses
            .iter()
            .map(|peer| (*peer, FakeResponse::Status(DnsRelayStatus::InternalError)))
            .collect(),
    );
    for peer in &addresses {
        driver.services.insert(*peer, 0);
    }
    assert!(matches!(
        driver.resolve_at(&basic_query(), 100),
        Err(DnsRelayClientError::NoCapablePeer)
    ));
    assert_eq!(
        driver.connects.values().sum::<usize>(),
        MAX_DNS_RELAY_HANDSHAKE_ATTEMPTS_PER_RESOLUTION
    );
    assert_eq!(driver.client.connection_count(), 0);
    assert_eq!(driver.client.pending_len(), 0);
}

#[test]
fn client_rejects_duplicate_completed_response_and_cleans_disconnects() {
    let duplicate_peer = address([10, 1, 0, 1]);
    let mut driver = Driver::new(
        &[duplicate_peer],
        vec![(duplicate_peer, FakeResponse::Duplicate(basic_response()))],
    );
    driver.resolve_at(&basic_query(), 100).unwrap();
    assert!(matches!(
        driver.resolve_at(&basic_query(), 101),
        Err(DnsRelayClientError::UnsolicitedResponse(_))
    ));
    assert_eq!(driver.client.pending_len(), 0);
    assert_eq!(driver.client.connection_count(), 0);

    let disconnected_peer = address([10, 2, 0, 1]);
    let mut driver = Driver::new(
        &[disconnected_peer],
        vec![(disconnected_peer, FakeResponse::Disconnect)],
    );
    assert!(matches!(
        driver.resolve_at(&basic_query(), 200),
        Err(DnsRelayClientError::Transport(P2pError::ConnectionClosed))
    ));
    assert_eq!(driver.client.pending_len(), 0);
    assert_eq!(driver.client.connection_count(), 0);
}

#[test]
fn client_attempts_no_more_than_one_alternate() {
    let first = address([10, 1, 0, 1]);
    let second = address([10, 2, 0, 1]);
    let third = address([10, 3, 0, 1]);
    let mut driver = Driver::new(
        &[first, second, third],
        [first, second, third]
            .into_iter()
            .map(|peer| (peer, FakeResponse::Status(DnsRelayStatus::Busy)))
            .collect(),
    );
    assert!(matches!(
        driver.resolve_at(&basic_query(), 100),
        Err(DnsRelayClientError::Status(DnsRelayStatus::Busy))
    ));
    assert_eq!(driver.client.pending_len(), 0);
    assert_eq!(
        driver.requests(),
        2,
        "only the primary and one alternate may receive a request"
    );
    assert_eq!(driver.connects.get(&third).copied().unwrap_or(0), 0);
}

#[test]
fn proof_peers_are_connected_to_last() {
    let proof = address([10, 1, 0, 1]);
    let other = address([10, 2, 0, 1]);
    let mut driver = Driver::new(
        &[proof, other],
        vec![
            (proof, FakeResponse::Success(basic_response())),
            (other, FakeResponse::Success(basic_response())),
        ],
    );
    driver.client.set_proof_peer(Some(proof));
    assert_eq!(driver.resolve_at(&basic_query(), 100).unwrap().peer, other);
    assert_eq!(driver.client.candidates(100), Vec::new());
    assert_eq!(driver.client.connections[0].address, other);
}

#[test]
fn relay_frame_progress_cannot_reset_absolute_deadline() {
    assert_eq!(DEFAULT_DNS_RELAY_TIMEOUT_SECONDS, 3);
    assert_eq!(remaining_until(Some(5)), Ok(5));
    assert_eq!(remaining_until(Some(0)), Err(P2pError::Io(IoKind::TimedOut)));
    assert_eq!(remaining_until(None), Err(P2pError::Io(IoKind::TimedOut)));
    assert_eq!(
        deadline_io_error(IoKind::Other, true),
        P2pError::Io(IoKind::TimedOut)
    );
    assert_eq!(
        deadline_io_error(IoKind::WouldBlock, false),
        P2pError::Io(IoKind::TimedOut)
    );
    assert_eq!(
        deadline_io_error(IoKind::Other, false),
        P2pError::Io(IoKind::Other)
    );
}

#[test]
fn frames_are_written_to_their_end() {
    let mut write = FrameWrite::new(10);
    assert_eq!(write.next(), Some(0));
    assert_eq!(write.wrote(4), Ok(()));
    assert_eq!(write.next(), Some(4));
    assert_eq!(write.wrote(0), Err(P2pError::Io(IoKind::WriteZero)));
    assert_eq!(write.wrote(6), Ok(()));
    assert_eq!(write.next(), None);
}

#[test]
fn handshakes_end_after_so_many_packets() {
    let mut handshake = RelayHandshake::new(relay_requester_version());
    for nonce in 1..MAX_PACKETS_PER_HANDSHAKE {
        let nonce = (nonce as u64).to_le_bytes();
        let turn = handshake.on_packet(Packet::Ping(nonce));
        assert_eq!(turn.send, vec![Packet::Pong(nonce)]);
        assert_eq!(turn.next, PeerNext::Receive);
    }
    let turn = handshake.on_packet(Packet::Ping([0; 8]));
    assert_eq!(turn.send, vec![Packet::Pong([0; 8])]);
    assert_eq!(turn.next, PeerNext::Fail(P2pError::HandshakePacketLimit));
}

#[test]
fn exchanges_end_after_so_many_packets() {
    let mut exchange = RelayExchange::new(1);
    for _ in 1..MAX_ADVISORY_PACKETS_PER_EXCHANGE {
        assert_eq!(
            exchange.on_packet(true, Packet::GetAddr).next,
            ExchangeNext::Receive
        );
    }
    assert_eq!(
        exchange.on_packet(true, Packet::GetAddr).next,
        ExchangeNext::Fail(AttemptFailure::transport(
            DnsRelayClientError::AdvisoryPacketLimit
        ))
    );
    assert_eq!(
        RelayExchange::new(1)
            .on_packet(true, Packet::Version(VersionPacket::default()))
            .next,
        ExchangeNext::Fail(AttemptFailure::malformed(
            DnsRelayClientError::UnexpectedPacket
        ))
    );
}

#[test]
fn request_identifiers_are_fresh() {
    assert_eq!(judge_draw(None, &[]), Draw::Unavailable);
    assert_eq!(judge_draw(Some(0), &[]), Draw::Again);
    assert_eq!(judge_draw(Some(3), &[2, 3]), Draw::Again);
    assert_eq!(judge_draw(Some(4), &[2, 3]), Draw::Accept(4));
    let client = DnsRelayClient::new(PeerManager::default());
    let first = client.allocate_request_id().unwrap();
    let second = client.allocate_request_id().unwrap();
    assert_ne!(first, second);
}

#[test]
fn prepared_queries_are_prepared_unchanged() {
    let mut query = basic_query();
    query[2] = 0;
    query[3] = 0x20;
    let asked = query.clone();
    let prepared = prepare(&query).unwrap();
    assert_eq!(query, asked);
    assert_eq!(prepared.len(), query.len());
    assert_eq!((prepared[2], prepared[3]), (0x01, 0x30));
    assert_eq!(prepared[..2], query[..2]);
    assert_eq!(prepared[4..], query[4..]);
    assert_eq!(prepare(&prepared).unwrap(), prepared);
}

#[test]
fn client_errors_have_stable_messages() {
    for (error, text) in [
        (
            DnsRelayClientError::InvalidQuery(DnsRelayValidationError::MalformedMessage),
            "invalid DNS relay query: malformed DNS message",
        ),
        (
            DnsRelayClientError::NoCapablePeer,
            "no live peer advertised the experimental DNS-relay service",
        ),
        (
            DnsRelayClientError::Transport(P2pError::ConnectionClosed),
            "DNS-relay peer transport failed: peer closed the connection",
        ),
        (
            DnsRelayClientError::Status(DnsRelayStatus::Success),
            "DNS-relay peer returned status Ok",
        ),
        (
            DnsRelayClientError::Status(DnsRelayStatus::Busy),
            "DNS-relay peer returned status Busy",
        ),
        (
            DnsRelayClientError::InvalidResponse(DnsRelayValidationError::MalformedMessage),
            "DNS-relay response failed validation: malformed DNS message",
        ),
        (
            DnsRelayClientError::UnsolicitedResponse(42),
            "DNS-relay peer returned unsolicited request id 42",
        ),
    ] {
        assert_eq!(error.message(), text);
    }
}

#[test]
fn a_resolution_ends_with_its_last_error() {
    let mut resolution = Resolution::new();
    assert_eq!(resolution.error(), DnsRelayClientError::NoCapablePeer);
    let failure = AttemptFailure::transport(DnsRelayClientError::UnexpectedPacket);
    assert!(!resolution.record_failure(failure, 0));
    assert_eq!(resolution.error(), DnsRelayClientError::UnexpectedPacket);
}

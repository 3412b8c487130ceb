//! The experimental DNS-relay packets and the DNS messages that they may carry.

use crate::text;
use crate::wire;
use crate::wire::{P2pError, ParseError, RelayPacketFault};
use vstd::prelude::*;

verus! {

/// A temporary, private service bit; no permanent assignment.
pub const EXPERIMENTAL_DNS_RELAY_SERVICE: u64 = 0x4000_0000;

/// A temporary, private packet number for requests.
pub const EXPERIMENTAL_GET_DNS_RELAY: u8 = 0xf0;

/// A temporary, private packet number for responses.
pub const EXPERIMENTAL_DNS_RELAY: u8 = 0xf1;

pub const MAX_DNS_RELAY_QUERY_SIZE: usize = 4096;

pub const MAX_DNS_RELAY_RESPONSE_SIZE: usize = 65535;

pub const MAX_DNS_RELAY_REQUEST_PAYLOAD_SIZE: usize = 4106;

pub const MAX_DNS_RELAY_RESPONSE_PAYLOAD_SIZE: usize = 65546;

#[derive(Clone, Copy, Debug, PartialEq, Eq, Structural)]
pub enum DnsRelayStatus {
    Success,
    Refused,
    Unsupported,
    Busy,
    InvalidQuery,
    ResolverUnavailable,
    Timeout,
    InternalError,
}

pub open spec fn status_code(s: DnsRelayStatus) -> u8 {
    match s {
        DnsRelayStatus::Success => 0,
        DnsRelayStatus::Refused => 1,
        DnsRelayStatus::Unsupported => 2,
        DnsRelayStatus::Busy => 3,
        DnsRelayStatus::InvalidQuery => 4,
        DnsRelayStatus::ResolverUnavailable => 5,
        DnsRelayStatus::Timeout => 6,
        DnsRelayStatus::InternalError => 7,
    }
}

pub open spec fn status_of(code: u8) -> Result<DnsRelayStatus, P2pError> {
    if code == 0 {
        Ok(DnsRelayStatus::Success)
    } else if code == 1 {
        Ok(DnsRelayStatus::Refused)
    } else if code == 2 {
        Ok(DnsRelayStatus::Unsupported)
    } else if code == 3 {
        Ok(DnsRelayStatus::Busy)
    } else if code == 4 {
        Ok(DnsRelayStatus::InvalidQuery)
    } else if code == 5 {
        Ok(DnsRelayStatus::ResolverUnavailable)
    } else if code == 6 {
        Ok(DnsRelayStatus::Timeout)
    } else if code == 7 {
        Ok(DnsRelayStatus::InternalError)
    } else {
        Err(P2pError::InvalidDnsRelayStatus)
    }
}

pub open spec fn status_name(s: DnsRelayStatus) -> Seq<char> {
    match s {
        DnsRelayStatus::Success => "Ok"@,
        DnsRelayStatus::Refused => "Refused"@,
        DnsRelayStatus::Unsupported => "Unsupported"@,
        DnsRelayStatus::Busy => "Busy"@,
        DnsRelayStatus::InvalidQuery => "InvalidQuery"@,
        DnsRelayStatus::ResolverUnavailable => "ResolverUnavailable"@,
        DnsRelayStatus::Timeout => "Timeout"@,
        DnsRelayStatus::InternalError => "InternalError"@,
    }
}

impl DnsRelayStatus {
    /// The name of the status in messages.
    pub fn name(&self) -> (r: &'static str)
        ensures
            r@ == status_name(*self),
    {
        match self {
            DnsRelayStatus::Success => "Ok",
            DnsRelayStatus::Refused => "Refused",
            DnsRelayStatus::Unsupported => "Unsupported",
            DnsRelayStatus::Busy => "Busy",
            DnsRelayStatus::InvalidQuery => "InvalidQuery",
            DnsRelayStatus::ResolverUnavailable => "ResolverUnavailable",
            DnsRelayStatus::Timeout => "Timeout",
            DnsRelayStatus::InternalError => "InternalError",
        }
    }

    /// The number of the status on the wire.
    pub fn code(self) -> (r: u8)
        ensures
            r == status_code(self),
    {
        match self {
            DnsRelayStatus::Success => 0,
            DnsRelayStatus::Refused => 1,
            DnsRelayStatus::Unsupported => 2,
            DnsRelayStatus::Busy => 3,
            DnsRelayStatus::InvalidQuery => 4,
            DnsRelayStatus::ResolverUnavailable => 5,
            DnsRelayStatus::Timeout => 6,
            DnsRelayStatus::InternalError => 7,
        }
    }

    /// The status of a number on the wire.
    pub fn from_code(code: u8) -> (r: Result<DnsRelayStatus, P2pError>)
        ensures
            r == status_of(code),
    {
        match code {
            0 => Ok(DnsRelayStatus::Success),
            1 => Ok(DnsRelayStatus::Refused),
            2 => Ok(DnsRelayStatus::Unsupported),
            3 => Ok(DnsRelayStatus::Busy),
            4 => Ok(DnsRelayStatus::InvalidQuery),
            5 => Ok(DnsRelayStatus::ResolverUnavailable),
            6 => Ok(DnsRelayStatus::Timeout),
            7 => Ok(DnsRelayStatus::InternalError),
            _ => Err(P2pError::InvalidDnsRelayStatus),
        }
    }
}

// ---------------------------------------------------------------------
// Requests
// ---------------------------------------------------------------------

/// A request to resolve a query.
#[derive(Clone, Debug, PartialEq, Eq)]
pub struct GetDnsRelayPacket {
    pub request_id: u64,
    pub query: Vec<u8>,
}

#[verifier::ext_equal]
pub struct RelayRequestView {
    pub request_id: u64,
    pub query: Seq<u8>,
}

impl View for GetDnsRelayPacket {
    type V = RelayRequestView;

    open spec fn view(&self) -> RelayRequestView {
        RelayRequestView { request_id: self.request_id, query: self.query@ }
    }
}

/// A request has an identifier and a query of a bounded size.
pub open spec fn request_error(p: RelayRequestView) -> Option<P2pError> {
    if p.request_id == 0 {
        Some(P2pError::InvalidDnsRelayRequestId)
    } else if p.query.len() == 0 {
        Some(P2pError::InvalidDnsRelayPacket(RelayPacketFault::EmptyQuery))
    } else if p.query.len() > MAX_DNS_RELAY_QUERY_SIZE {
        Some(P2pError::DnsRelayQueryTooLarge)
    } else {
        None
    }
}

pub open spec fn checked_request(p: RelayRequestView) -> Result<RelayRequestView, P2pError> {
    match request_error(p) {
        Some(e) => Err(e),
        None => Ok(p),
    }
}

pub open spec fn request_bytes(p: RelayRequestView) -> Seq<u8> {
    wire::le_bytes(p.request_id as nat, 8) + wire::le_bytes(p.query.len(), 2) + p.query
}

pub open spec fn encoded_request(p: RelayRequestView) -> Result<Seq<u8>, P2pError> {
    match request_error(p) {
        Some(e) => Err(e),
        None => Ok(request_bytes(p)),
    }
}

/// The request in a payload. A query that is announced as too large is refused
/// before its bytes are looked for.
pub open spec fn decoded_request(payload: Seq<u8>) -> Result<RelayRequestView, P2pError> {
    if payload.len() < 10 {
        Err(P2pError::Parse(ParseError::UnexpectedEof))
    } else {
        let request_id = wire::le_number(payload.take(8)) as u64;
        let len = wire::le_number(payload.subrange(8, 10));
        if request_id == 0 {
            Err(P2pError::InvalidDnsRelayRequestId)
        } else if len > MAX_DNS_RELAY_QUERY_SIZE {
            Err(P2pError::DnsRelayQueryTooLarge)
        } else if payload.len() < 10 + len {
            Err(P2pError::Parse(ParseError::UnexpectedEof))
        } else if payload.len() > 10 + len {
            Err(P2pError::TrailingBytes)
        } else {
            checked_request(RelayRequestView { request_id, query: payload.skip(10) })
        }
    }
}

pub open spec fn same_request(
    r: Result<GetDnsRelayPacket, P2pError>,
    v: Result<RelayRequestView, P2pError>,
) -> bool {
    match (r, v) {
        (Ok(p), Ok(w)) => p@ == w,
        (Err(e), Err(f)) => e == f,
        _ => false,
    }
}

pub open spec fn same_bytes(r: Result<Vec<u8>, P2pError>, v: Result<Seq<u8>, P2pError>) -> bool {
    match (r, v) {
        (Ok(b), Ok(w)) => b@ == w,
        (Err(e), Err(f)) => e == f,
        _ => false,
    }
}

impl GetDnsRelayPacket {
    pub fn new(request_id: u64, query: Vec<u8>) -> (r: Result<Self, P2pError>)
        ensures
            same_request(r, checked_request(RelayRequestView { request_id, query: query@ })),
    {
        let packet = GetDnsRelayPacket { request_id, query };
        match packet.fault() {
            Some(e) => Err(e),
            None => Ok(packet),
        }
    }

    fn fault(&self) -> (r: Option<P2pError>)
        ensures
            r == request_error(self@),
    {
        if self.request_id == 0 {
            return Some(P2pError::InvalidDnsRelayRequestId);
        }
        if self.query.len() == 0 {
            return Some(P2pError::InvalidDnsRelayPacket(RelayPacketFault::EmptyQuery));
        }
        if self.query.len() > MAX_DNS_RELAY_QUERY_SIZE {
            return Some(P2pError::DnsRelayQueryTooLarge);
        }
        None
    }

    pub fn encode(&self) -> (r: Result<Vec<u8>, P2pError>)
        ensures
            same_bytes(r, encoded_request(self@)),
    {
        match self.fault() {
            Some(e) => {
                return Err(e);
            },
            None => {},
        }
        let mut out: Vec<u8> = Vec::new();
        wire::push_le(&mut out, self.request_id, 8);
        let n: usize = self.query.len();
        wire::push_le(&mut out, n as u64, 2);
        text::push_bytes(&mut out, self.query.as_slice());
        assert(out@ == request_bytes(self@));
        Ok(out)
    }

    pub fn decode(payload: &[u8]) -> (r: Result<Self, P2pError>)
        ensures
            same_request(r, decoded_request(payload@)),
    {
        if payload.len() < 10 {
            return Err(P2pError::Parse(ParseError::UnexpectedEof));
        }
        let id_bytes = text::bytes_between(payload, 0, 8);
        assert(id_bytes@ == payload@.take(8));
        let request_id: u64 = wire::number_of(id_bytes.as_slice());
        if request_id == 0 {
            return Err(P2pError::InvalidDnsRelayRequestId);
        }
        let len_bytes = text::bytes_between(payload, 8, 10);
        let len: u64 = wire::number_of(len_bytes.as_slice());
        if len > MAX_DNS_RELAY_QUERY_SIZE as u64 {
            return Err(P2pError::DnsRelayQueryTooLarge);
        }
        let expected: usize = 10 + len as usize;
        if payload.len() < expected {
            return Err(P2pError::Parse(ParseError::UnexpectedEof));
        }
        if payload.len() > expected {
            return Err(P2pError::TrailingBytes);
        }
        let query = text::bytes_between(payload, 10, expected);
        assert(query@ == payload@.skip(10));
        GetDnsRelayPacket::new(request_id, query)
    }

    pub fn copy(&self) -> (r: Self)
        ensures
            r@ == self@,
    {
        let query = text::bytes_between(self.query.as_slice(), 0, self.query.len());
        assert(query@ == self.query@);
        GetDnsRelayPacket { request_id: self.request_id, query }
    }
}

/// Every valid request is read back as it was written.
pub proof fn relay_requests_round_trip(p: RelayRequestView)
    requires
        request_error(p) is None,
    ensures
        encoded_request(p) == Ok::<Seq<u8>, P2pError>(request_bytes(p)),
        decoded_request(request_bytes(p)) == Ok::<RelayRequestView, P2pError>(p),
        request_bytes(p).len() <= MAX_DNS_RELAY_REQUEST_PAYLOAD_SIZE,
{
    wire::lemma_byte_powers();
    wire::lemma_le_number_of_bytes(p.request_id as nat, 8);
    wire::lemma_le_number_of_bytes(p.query.len(), 2);
    let b = request_bytes(p);
    assert(b.take(8) == wire::le_bytes(p.request_id as nat, 8));
    assert(b.subrange(8, 10) == wire::le_bytes(p.query.len(), 2));
    assert(b.skip(10) == p.query);
}

// ---------------------------------------------------------------------
// Responses
// ---------------------------------------------------------------------

/// The answer to a request.
#[derive(Clone, Debug, PartialEq, Eq)]
pub struct DnsRelayPacket {
    pub request_id: u64,
    pub status: DnsRelayStatus,
    pub response: Vec<u8>,
}

#[verifier::ext_equal]
pub struct RelayResponseView {
    pub request_id: u64,
    pub status: DnsRelayStatus,
    pub response: Seq<u8>,
}

impl View for DnsRelayPacket {
    type V = RelayResponseView;

    open spec fn view(&self) -> RelayResponseView {
        RelayResponseView {
            request_id: self.request_id,
            status: self.status,
            response: self.response@,
        }
    }
}

/// A response has an identifier, and a body exactly where it succeeded.
pub open spec fn response_error(p: RelayResponseView) -> Option<P2pError> {
    if p.request_id == 0 {
        Some(P2pError::InvalidDnsRelayRequestId)
    } else if p.response.len() > MAX_DNS_RELAY_RESPONSE_SIZE {
        Some(P2pError::DnsRelayResponseTooLarge)
    } else if p.status == DnsRelayStatus::Success && p.response.len() == 0 {
        Some(P2pError::InvalidDnsRelayPacket(RelayPacketFault::EmptyResponse))
    } else if p.status != DnsRelayStatus::Success && p.response.len() != 0 {
        Some(P2pError::InvalidDnsRelayPacket(RelayPacketFault::BodyOnError))
    } else {
        None
    }
}

pub open spec fn checked_response(p: RelayResponseView) -> Result<RelayResponseView, P2pError> {
    match response_error(p) {
        Some(e) => Err(e),
        None => Ok(p),
    }
}

pub open spec fn response_bytes(p: RelayResponseView) -> Seq<u8> {
    wire::le_bytes(p.request_id as nat, 8) + seq![status_code(p.status)] + wire::le_bytes(
        p.response.len(),
        2,
    ) + p.response
}

pub open spec fn encoded_response(p: RelayResponseView) -> Result<Seq<u8>, P2pError> {
    match response_error(p) {
        Some(e) => Err(e),
        None => Ok(response_bytes(p)),
    }
}

/// The response in a payload.
pub open spec fn decoded_response(payload: Seq<u8>) -> Result<RelayResponseView, P2pError> {
    if payload.len() < 11 {
        Err(P2pError::Parse(ParseError::UnexpectedEof))
    } else {
        let request_id = wire::le_number(payload.take(8)) as u64;
        let len = wire::le_number(payload.subrange(9, 11));
        if request_id == 0 {
            Err(P2pError::InvalidDnsRelayRequestId)
        } else {
            match status_of(payload[8]) {
                Err(e) => Err(e),
                Ok(status) => if payload.len() < 11 + len {
                    Err(P2pError::Parse(ParseError::UnexpectedEof))
                } else if payload.len() > 11 + len {
                    Err(P2pError::TrailingBytes)
                } else {
                    checked_response(
                        RelayResponseView { request_id, status, response: payload.skip(11) },
                    )
                },
            }
        }
    }
}

pub open spec fn same_response(
    r: Result<DnsRelayPacket, P2pError>,
    v: Result<RelayResponseView, P2pError>,
) -> bool {
    match (r, v) {
        (Ok(p), Ok(w)) => p@ == w,
        (Err(e), Err(f)) => e == f,
        _ => false,
    }
}

impl DnsRelayPacket {
    pub fn new(request_id: u64, status: DnsRelayStatus, response: Vec<u8>) -> (r: Result<
        Self,
        P2pError,
    >)
        ensures
            same_response(
                r,
                checked_response(RelayResponseView { request_id, status, response: response@ }),
            ),
    {
        let packet = DnsRelayPacket { request_id, status, response };
        match packet.fault() {
            Some(e) => Err(e),
            None => Ok(packet),
        }
    }

    fn fault(&self) -> (r: Option<P2pError>)
        ensures
            r == response_error(self@),
    {
        if self.request_id == 0 {
            return Some(P2pError::InvalidDnsRelayRequestId);
        }
        if self.response.len() > MAX_DNS_RELAY_RESPONSE_SIZE {
            return Some(P2pError::DnsRelayResponseTooLarge);
        }
        let empty = self.response.len() == 0;
        if self.status == DnsRelayStatus::Success && empty {
            return Some(P2pError::InvalidDnsRelayPacket(RelayPacketFault::EmptyResponse));
        }
        if self.status != DnsRelayStatus::Success && !empty {
            return Some(P2pError::InvalidDnsRelayPacket(RelayPacketFault::BodyOnError));
        }
        None
    }

    pub fn encode(&self) -> (r: Result<Vec<u8>, P2pError>)
        ensures
            same_bytes(r, encoded_response(self@)),
    {
        match self.fault() {
            Some(e) => {
                return Err(e);
            },
            None => {},
        }
        let mut out: Vec<u8> = Vec::new();
        wire::push_le(&mut out, self.request_id, 8);
        out.push(self.status.code());
        let n: usize = self.response.len();
        wire::push_le(&mut out, n as u64, 2);
        text::push_bytes(&mut out, self.response.as_slice());
        assert(out@ == response_bytes(self@));
        Ok(out)
    }

    pub fn decode(payload: &[u8]) -> (r: Result<Self, P2pError>)
        ensures
            same_response(r, decoded_response(payload@)),
    {
        if payload.len() < 11 {
            return Err(P2pError::Parse(ParseError::UnexpectedEof));
        }
        let id_bytes = text::bytes_between(payload, 0, 8);
        assert(id_bytes@ == payload@.take(8));
        let request_id: u64 = wire::number_of(id_bytes.as_slice());
        if request_id == 0 {
            return Err(P2pError::InvalidDnsRelayRequestId);
        }
        let status = match DnsRelayStatus::from_code(payload[8]) {
            Ok(s) => s,
            Err(e) => {
                return Err(e);
            },
        };
        let len_bytes = text::bytes_between(payload, 9, 11);
        let len: u64 = wire::number_of(len_bytes.as_slice());
        proof {
            wire::lemma_le_number_bound(len_bytes@);
            wire::lemma_byte_powers();
        }
        let expected: usize = 11 + len as usize;
        if payload.len() < expected {
            return Err(P2pError::Parse(ParseError::UnexpectedEof));
        }
        if payload.len() > expected {
            return Err(P2pError::TrailingBytes);
        }
        let response = text::bytes_between(payload, 11, expected);
        assert(response@ == payload@.skip(11));
        DnsRelayPacket::new(request_id, status, response)
    }

    pub fn copy(&self) -> (r: Self)
        ensures
            r@ == self@,
    {
        let response = text::bytes_between(self.response.as_slice(), 0, self.response.len());
        assert(response@ == self.response@);
        DnsRelayPacket { request_id: self.request_id, status: self.status, response }
    }
}

/// Every valid response is read back as it was written.
pub proof fn relay_responses_round_trip(p: RelayResponseView)
    requires
        response_error(p) is None,
    ensures
        encoded_response(p) == Ok::<Seq<u8>, P2pError>(response_bytes(p)),
        decoded_response(response_bytes(p)) == Ok::<RelayResponseView, P2pError>(p),
        response_bytes(p).len() <= MAX_DNS_RELAY_RESPONSE_PAYLOAD_SIZE,
{
    wire::lemma_byte_powers();
    wire::lemma_le_number_of_bytes(p.request_id as nat, 8);
    wire::lemma_le_number_of_bytes(p.response.len(), 2);
    let b = response_bytes(p);
    assert(b.take(8) == wire::le_bytes(p.request_id as nat, 8));
    assert(b[8] == status_code(p.status));
    assert(b.subrange(9, 11) == wire::le_bytes(p.response.len(), 2));
    assert(b.skip(11) == p.response);
}

// ---------------------------------------------------------------------
// DNS messages
// ---------------------------------------------------------------------

#[derive(Clone, Copy, Debug, PartialEq, Eq, Structural)]
pub enum DnsRelayValidationError {
    MessageTooLarge,
    MalformedMessage,
    NotStandardQuery,
    InvalidQuestionCount,
    InvalidQuestionClass,
    QueryHasResponseSections,
    InvalidQueryFlags,
    UnsupportedQuestionType,
    InvalidHnsRoot,
    InvalidEdns,
    InvalidEdnsSize,
    DnssecOkRequired,
    EdnsClientSubnetForbidden,
    InvalidRecursiveFlags,
    ResponseIdMismatch,
    ResponseQuestionMismatch,
}

pub open spec fn validation_error_text(e: DnsRelayValidationError) -> Seq<char> {
    match e {
        DnsRelayValidationError::MessageTooLarge => "DNS message exceeds the relay limit"@,
        DnsRelayValidationError::MalformedMessage => "malformed DNS message"@,
        DnsRelayValidationError::NotStandardQuery => "DNS relay requires a standard QUERY"@,
        DnsRelayValidationError::InvalidQuestionCount
            => "DNS relay requires exactly one question"@,
        DnsRelayValidationError::InvalidQuestionClass
            => "DNS relay requires an IN-class question"@,
        DnsRelayValidationError::QueryHasResponseSections
            => "DNS relay query contains response sections"@,
        DnsRelayValidationError::InvalidQueryFlags => "DNS relay query has invalid header flags"@,
        DnsRelayValidationError::UnsupportedQuestionType
            => "DNS relay question type is not supported"@,
        DnsRelayValidationError::InvalidHnsRoot
            => "DNS relay question has an invalid Handshake root"@,
        DnsRelayValidationError::InvalidEdns => "DNS relay requires exactly one EDNS OPT record"@,
        DnsRelayValidationError::InvalidEdnsSize
            => "DNS relay EDNS payload size is outside 512 through 4096 bytes"@,
        DnsRelayValidationError::DnssecOkRequired => "DNSSEC OK is not set"@,
        DnsRelayValidationError::EdnsClientSubnetForbidden => "EDNS Client Subnet is forbidden"@,
        DnsRelayValidationError::InvalidRecursiveFlags => "recursive DNS flags are inconsistent"@,
        DnsRelayValidationError::ResponseIdMismatch => "DNS response identifier does not match"@,
        DnsRelayValidationError::ResponseQuestionMismatch
            => "DNS response question does not match"@,
    }
}

impl DnsRelayValidationError {
    pub fn message(&self) -> (r: &'static str)
        ensures
            r@ == validation_error_text(*self),
    {
        match self {
            DnsRelayValidationError::MessageTooLarge => "DNS message exceeds the relay limit",
            DnsRelayValidationError::MalformedMessage => "malformed DNS message",
            DnsRelayValidationError::NotStandardQuery => "DNS relay requires a standard QUERY",
            DnsRelayValidationError::InvalidQuestionCount =>
                "DNS relay requires exactly one question",
            DnsRelayValidationError::InvalidQuestionClass =>
                "DNS relay requires an IN-class question",
            DnsRelayValidationError::QueryHasResponseSections =>
                "DNS relay query contains response sections",
            DnsRelayValidationError::InvalidQueryFlags =>
                "DNS relay query has invalid header flags",
            DnsRelayValidationError::UnsupportedQuestionType =>
                "DNS relay question type is not supported",
            DnsRelayValidationError::InvalidHnsRoot =>
                "DNS relay question has an invalid Handshake root",
            DnsRelayValidationError::InvalidEdns =>
                "DNS relay requires exactly one EDNS OPT record",
            DnsRelayValidationError::InvalidEdnsSize =>
                "DNS relay EDNS payload size is outside 512 through 4096 bytes",
            DnsRelayValidationError::DnssecOkRequired => "DNSSEC OK is not set",
            DnsRelayValidationError::EdnsClientSubnetForbidden =>
                "EDNS Client Subnet is forbidden",
            DnsRelayValidationError::InvalidRecursiveFlags =>
                "recursive DNS flags are inconsistent",
            DnsRelayValidationError::ResponseIdMismatch =>
                "DNS response identifier does not match",
            DnsRelayValidationError::ResponseQuestionMismatch =>
                "DNS response question does not match",
        }
    }
}

/// A question of a DNS message.
#[derive(Clone, Debug, PartialEq, Eq)]
pub struct DnsQuestion {
    pub labels: Vec<String>,
    pub record_type: u16,
    pub class: u16,
}

/// A record of a DNS message.
#[derive(Clone, Debug, PartialEq, Eq)]
pub struct DnsRecord {
    pub labels: Vec<String>,
    pub record_type: u16,
    pub class: u16,
    pub ttl: u32,
    pub rdata: Vec<u8>,
}

/// What a parsed DNS message holds, as far as a relay looks at it.
#[derive(Clone, Debug, PartialEq, Eq)]
pub struct DnsMessage {
    pub id: u16,
    pub flags: u16,
    pub questions: Vec<DnsQuestion>,
    pub answer_count: usize,
    pub authority_count: usize,
    pub additionals: Vec<DnsRecord>,
}

pub open spec fn label_views(labels: Seq<String>) -> Seq<Seq<char>> {
    labels.map_values(|l: String| l@)
}

#[verifier::ext_equal]
pub struct QuestionView {
    pub labels: Seq<Seq<char>>,
    pub record_type: u16,
    pub class: u16,
}

impl View for DnsQuestion {
    type V = QuestionView;

    open spec fn view(&self) -> QuestionView {
        QuestionView {
            labels: label_views(self.labels@),
            record_type: self.record_type,
            class: self.class,
        }
    }
}

#[verifier::ext_equal]
pub struct RecordView {
    pub labels: Seq<Seq<char>>,
    pub record_type: u16,
    pub class: u16,
    pub ttl: u32,
    pub rdata: Seq<u8>,
}

impl View for DnsRecord {
    type V = RecordView;

    open spec fn view(&self) -> RecordView {
        RecordView {
            labels: label_views(self.labels@),
            record_type: self.record_type,
            class: self.class,
            ttl: self.ttl,
            rdata: self.rdata@,
        }
    }
}

#[verifier::ext_equal]
pub struct MessageView {
    pub id: u16,
    pub flags: u16,
    pub questions: Seq<QuestionView>,
    pub answers: nat,
    pub authorities: nat,
    pub additionals: Seq<RecordView>,
}

impl View for DnsMessage {
    type V = MessageView;

    open spec fn view(&self) -> MessageView {
        MessageView {
            id: self.id,
            flags: self.flags,
            questions: self.questions@.map_values(|q: DnsQuestion| q@),
            answers: self.answer_count as nat,
            authorities: self.authority_count as nat,
            additionals: self.additionals@.map_values(|r: DnsRecord| r@),
        }
    }
}

/// The flags of a standard query or of its response.
pub open spec fn is_response(flags: u16) -> bool {
    flags & 0x8000 != 0
}

pub open spec fn has_opcode(flags: u16) -> bool {
    flags & 0x7800 != 0
}

/// Authoritative, truncated, recursion available, the reserved bit, or an error.
pub open spec fn has_query_faults(flags: u16) -> bool {
    flags & 0x06c0 != 0 || flags & 0x000f != 0
}

pub open spec fn asks_recursion(flags: u16) -> bool {
    flags & 0x0100 != 0
}

pub open spec fn offers_recursion(flags: u16) -> bool {
    flags & 0x0080 != 0
}

pub open spec fn disables_checking(flags: u16) -> bool {
    flags & 0x0010 != 0
}

/// The record types that a relay resolves.
pub open spec fn supported_types() -> Seq<u16> {
    seq![1, 2, 5, 6, 15, 16, 28, 33, 39, 43, 46, 47, 48, 50, 51, 52, 64, 65, 257]
}

pub fn is_supported_dns_relay_type(code: u16) -> (r: bool)
    ensures
        r == supported_types().contains(code),
{
    let types: Vec<u16> = vec![1, 2, 5, 6, 15, 16, 28, 33, 39, 43, 46, 47, 48, 50, 51, 52, 64, 65, 257];
    assert(types@ == supported_types());
    let mut i: usize = 0;
    while i < types.len()
        invariant
            i <= types@.len(),
            types@ == supported_types(),
            forall|j: int| 0 <= j < i ==> #[trigger] types@[j] != code,
        decreases types.len() - i,
    {
        if types[i] == code {
            assert(supported_types()[i as int] == code);
            return true;
        }
        i += 1;
    }
    false
}

/// The only option that a query may carry is padding.
pub open spec fn options_error(s: Seq<u8>) -> Option<DnsRelayValidationError>
    decreases s.len(),
{
    if s.len() == 0 {
        None
    } else if s.len() < 4 {
        Some(DnsRelayValidationError::InvalidEdns)
    } else {
        let code = s[0] * 256 + s[1];
        let len = s[2] * 256 + s[3];
        if s.len() < 4 + len {
            Some(DnsRelayValidationError::InvalidEdns)
        } else if code == 8 {
            Some(DnsRelayValidationError::EdnsClientSubnetForbidden)
        } else if code != 12 {
            Some(DnsRelayValidationError::InvalidEdns)
        } else {
            options_error(s.skip(4 + len))
        }
    }
}

fn validate_edns_options(options: &[u8]) -> (r: Option<DnsRelayValidationError>)
    ensures
        r == options_error(options@),
{
    let n: usize = options.len();
    let mut i: usize = 0;
    assert(options@.skip(0) == options@);
    while i < n
        invariant
            i <= n,
            n == options@.len(),
            options_error(options@) == options_error(options@.skip(i as int)),
        decreases n - i,
    {
        let ghost s = options@.skip(i as int);
        if n - i < 4 {
            return Some(DnsRelayValidationError::InvalidEdns);
        }
        let code: u32 = options[i] as u32 * 256 + options[i + 1] as u32;
        let len: usize = options[i + 2] as usize * 256 + options[i + 3] as usize;
        proof {
            assert(s[0] == options@[i as int]);
            assert(s[1] == options@[i as int + 1]);
            assert(s[2] == options@[i as int + 2]);
            assert(s[3] == options@[i as int + 3]);
        }
        if n - i < 4 + len {
            return Some(DnsRelayValidationError::InvalidEdns);
        }
        if code == 8 {
            return Some(DnsRelayValidationError::EdnsClientSubnetForbidden);
        }
        if code != 12 {
            return Some(DnsRelayValidationError::InvalidEdns);
        }
        proof {
            assert(s.skip(4 + len as int) == options@.skip(i as int + 4 + len as int));
        }
        i = i + 4 + len;
    }
    assert(options@.skip(i as int) == Seq::<u8>::empty());
    None
}

/// The sole additional record of a query: EDNS with DNSSEC, and nothing else.
pub open spec fn edns_error(additionals: Seq<RecordView>) -> Option<DnsRelayValidationError> {
    if additionals.len() != 1 {
        Some(DnsRelayValidationError::InvalidEdns)
    } else {
        let opt = additionals[0];
        if opt.record_type != 41 || opt.labels.len() != 0 {
            Some(DnsRelayValidationError::InvalidEdns)
        } else if !(512 <= opt.class <= MAX_DNS_RELAY_QUERY_SIZE) {
            Some(DnsRelayValidationError::InvalidEdnsSize)
        } else if opt.ttl & 0x8000 == 0 {
            Some(DnsRelayValidationError::DnssecOkRequired)
        } else if opt.ttl != 0x8000 {
            Some(DnsRelayValidationError::InvalidEdns)
        } else {
            options_error(opt.rdata)
        }
    }
}

/// Why a query is not relayed. `root_valid` is the word on its last label.
pub open spec fn message_error(m: MessageView, root_valid: bool, require_recursive: bool) -> Option<
    DnsRelayValidationError,
> {
    if is_response(m.flags) || has_opcode(m.flags) {
        Some(DnsRelayValidationError::NotStandardQuery)
    } else if m.questions.len() != 1 {
        Some(DnsRelayValidationError::InvalidQuestionCount)
    } else if has_query_faults(m.flags) {
        Some(DnsRelayValidationError::InvalidQueryFlags)
    } else if m.questions[0].class != 1 {
        Some(DnsRelayValidationError::InvalidQuestionClass)
    } else if !supported_types().contains(m.questions[0].record_type) {
        Some(DnsRelayValidationError::UnsupportedQuestionType)
    } else if m.questions[0].labels.len() == 0 || !root_valid {
        Some(DnsRelayValidationError::InvalidHnsRoot)
    } else if m.answers != 0 || m.authorities != 0 {
        Some(DnsRelayValidationError::QueryHasResponseSections)
    } else if require_recursive && !(asks_recursion(m.flags) && disables_checking(m.flags)) {
        Some(DnsRelayValidationError::InvalidRecursiveFlags)
    } else {
        edns_error(m.additionals)
    }
}

pub open spec fn query_error(
    len: nat,
    m: Option<MessageView>,
    root_valid: bool,
    require_recursive: bool,
) -> Option<DnsRelayValidationError> {
    if len > MAX_DNS_RELAY_QUERY_SIZE {
        Some(DnsRelayValidationError::MessageTooLarge)
    } else {
        match m {
            None => Some(DnsRelayValidationError::MalformedMessage),
            Some(m) => message_error(m, root_valid, require_recursive),
        }
    }
}

pub open spec fn message_view(m: Option<&DnsMessage>) -> Option<MessageView> {
    match m {
        Some(m) => Some(m@),
        None => None,
    }
}

fn validate_edns(additionals: &Vec<DnsRecord>) -> (r: Option<DnsRelayValidationError>)
    ensures
        r == edns_error(additionals@.map_values(|r: DnsRecord| r@)),
{
    if additionals.len() != 1 {
        return Some(DnsRelayValidationError::InvalidEdns);
    }
    let opt = &additionals[0];
    assert(additionals@.map_values(|r: DnsRecord| r@)[0] == opt@);
    assert(label_views(opt.labels@).len() == opt.labels@.len());
    if opt.record_type != 41 || opt.labels.len() != 0 {
        return Some(DnsRelayValidationError::InvalidEdns);
    }
    if opt.class < 512 || opt.class as usize > MAX_DNS_RELAY_QUERY_SIZE {
        return Some(DnsRelayValidationError::InvalidEdnsSize);
    }
    if opt.ttl & 0x8000 == 0 {
        return Some(DnsRelayValidationError::DnssecOkRequired);
    }
    if opt.ttl != 0x8000 {
        return Some(DnsRelayValidationError::InvalidEdns);
    }
    validate_edns_options(opt.rdata.as_slice())
}

fn validate_message(m: &DnsMessage, flags: u16, root_valid: bool, require_recursive: bool) -> (r:
    Option<DnsRelayValidationError>)
    ensures
        r == message_error(MessageView { flags, ..m@ }, root_valid, require_recursive),
{
    if flags & 0x8000 != 0 || flags & 0x7800 != 0 {
        return Some(DnsRelayValidationError::NotStandardQuery);
    }
    assert(m@.questions.len() == m.questions@.len());
    if m.questions.len() != 1 {
        return Some(DnsRelayValidationError::InvalidQuestionCount);
    }
    let question = &m.questions[0];
    assert(m@.questions[0] == question@);
    assert(question@.labels.len() == question.labels@.len());
    if flags & 0x06c0 != 0 || flags & 0x000f != 0 {
        return Some(DnsRelayValidationError::InvalidQueryFlags);
    }
    if question.class != 1 {
        return Some(DnsRelayValidationError::InvalidQuestionClass);
    }
    if !is_supported_dns_relay_type(question.record_type) {
        return Some(DnsRelayValidationError::UnsupportedQuestionType);
    }
    if question.labels.len() == 0 || !root_valid {
        return Some(DnsRelayValidationError::InvalidHnsRoot);
    }
    if m.answer_count != 0 || m.authority_count != 0 {
        return Some(DnsRelayValidationError::QueryHasResponseSections);
    }
    if require_recursive && (flags & 0x0100 == 0 || flags & 0x0010 == 0) {
        return Some(DnsRelayValidationError::InvalidRecursiveFlags);
    }
    validate_edns(&m.additionals)
}

/// Checks a query. `parsed` is its message, where it could be parsed.
pub fn validate_dns_relay_query(
    len: usize,
    parsed: Option<&DnsMessage>,
    root_valid: bool,
    require_recursive: bool,
) -> (r: Option<DnsRelayValidationError>)
    ensures
        r == query_error(len as nat, message_view(parsed), root_valid, require_recursive),
{
    if len > MAX_DNS_RELAY_QUERY_SIZE {
        return Some(DnsRelayValidationError::MessageTooLarge);
    }
    match parsed {
        None => Some(DnsRelayValidationError::MalformedMessage),
        Some(m) => validate_message(m, m.flags, root_valid, require_recursive),
    }
}

/// The query with recursion asked for and checking disabled.
pub open spec fn recursive_query(query: Seq<u8>) -> Seq<u8> {
    query.update(2, query[2] | 0x01).update(3, query[3] | 0x10)
}

pub open spec fn recursive_flags(flags: u16) -> u16 {
    flags | 0x0110
}

/// The query that is sent for a caller's query, or why there is none.
pub open spec fn prepared_query(
    query: Seq<u8>,
    m: Option<MessageView>,
    root_valid: bool,
) -> Result<Seq<u8>, DnsRelayValidationError> {
    match query_error(query.len(), m, root_valid, false) {
        Some(e) => Err(e),
        None => if query.len() < 4 {
            Err(DnsRelayValidationError::MalformedMessage)
        } else {
            Ok(recursive_query(query))
        },
    }
}

/// Checks a caller's query and asks for recursion in a copy of it. `parsed` is its
/// message, where it could be parsed, and `root_valid` the word on the last label
/// of its name.
pub fn prepare_dns_relay_query(query: &[u8], parsed: Option<&DnsMessage>, root_valid: bool) -> (r:
    Result<Vec<u8>, DnsRelayValidationError>)
    ensures
        match (r, prepared_query(query@, message_view(parsed), root_valid)) {
            (Ok(b), Ok(v)) => b@ == v,
            (Err(e), Err(f)) => e == f,
            _ => false,
        },
{
    match validate_dns_relay_query(query.len(), parsed, root_valid, false) {
        Some(e) => {
            return Err(e);
        },
        None => {},
    }
    if query.len() < 4 {
        return Err(DnsRelayValidationError::MalformedMessage);
    }
    let mut prepared = text::bytes_between(query, 0, query.len());
    assert(prepared@ == query@);
    let high: u8 = prepared[2] | 0x01;
    let low: u8 = prepared[3] | 0x10;
    prepared.set(2, high);
    prepared.set(3, low);
    match parsed {
        None => Err(DnsRelayValidationError::MalformedMessage),
        Some(m) => {
            proof {
                prepared_queries_are_relayed(m@, root_valid);
            }
            match validate_message(m, m.flags | 0x0110, root_valid, true) {
                Some(e) => Err(e),
                None => Ok(prepared),
            }
        },
    }
}

/// A query that is accepted from a caller is accepted again once recursion is
/// asked for in it.
pub proof fn prepared_queries_are_relayed(m: MessageView, root_valid: bool)
    requires
        message_error(m, root_valid, false) is None,
    ensures
        message_error(
            MessageView { flags: recursive_flags(m.flags), ..m },
            root_valid,
            true,
        ) is None,
{
    let f = m.flags;
    assert((f | 0x0110) & 0x8000 == f & 0x8000 && (f | 0x0110) & 0x7800 == f & 0x7800 && (f
        | 0x0110) & 0x06c0 == f & 0x06c0 && (f | 0x0110) & 0x000f == f & 0x000f && (f | 0x0110)
        & 0x0100 != 0 && (f | 0x0110) & 0x0010 != 0) by (bit_vector);
}

/// A prepared query differs from the caller's in the two flags only, and is prepared
/// again unchanged: its message is that of the caller's query with the two flags.
pub proof fn prepared_queries_stay(query: Seq<u8>, m: MessageView, root_valid: bool)
    requires
        prepared_query(query, Some(m), root_valid) is Ok,
    ensures
        ({
            let p = prepared_query(query, Some(m), root_valid)->Ok_0;
            let flagged = MessageView { flags: recursive_flags(m.flags), ..m };
            &&& p.len() == query.len()
            &&& p[2] == query[2] | 0x01 && p[3] == query[3] | 0x10
            &&& forall|i: int| 0 <= i < p.len() && i != 2 && i != 3 ==> #[trigger] p[i] == query[i]
            &&& m.flags == query[2] * 256 + query[3] ==> flagged.flags == p[2] * 256 + p[3]
            &&& prepared_query(p, Some(flagged), root_valid) == Ok::<
                Seq<u8>,
                DnsRelayValidationError,
            >(p)
        }),
{
    let p = recursive_query(query);
    let high: u8 = query[2];
    let low: u8 = query[3];
    assert((high | 0x01) | 0x01 == high | 0x01 && (low | 0x10) | 0x10 == low | 0x10
        && ((high * 256 + low) as u16) | 0x0110 == ((high | 0x01) * 256 + (low | 0x10)) as u16)
        by (bit_vector);
    assert(recursive_query(p) =~= p);
    prepared_queries_are_relayed(m, root_valid);
}

/// Why a response is not handed to the caller.
pub open spec fn relay_response_error(
    query_len: nat,
    query: Option<MessageView>,
    root_valid: bool,
    response_len: nat,
    response: Option<MessageView>,
) -> Option<DnsRelayValidationError> {
    if query_error(query_len, query, root_valid, true) is Some {
        query_error(query_len, query, root_valid, true)
    } else if response_len > MAX_DNS_RELAY_RESPONSE_SIZE {
        Some(DnsRelayValidationError::MessageTooLarge)
    } else {
        match response {
            None => Some(DnsRelayValidationError::MalformedMessage),
            Some(m) => if !is_response(m.flags) || has_opcode(m.flags) {
                Some(DnsRelayValidationError::NotStandardQuery)
            } else if m.questions.len() != 1 {
                Some(DnsRelayValidationError::InvalidQuestionCount)
            } else if !asks_recursion(m.flags) || !offers_recursion(m.flags) {
                Some(DnsRelayValidationError::InvalidRecursiveFlags)
            } else if m.id != query->0.id {
                Some(DnsRelayValidationError::ResponseIdMismatch)
            } else if m.questions[0] != query->0.questions[0] {
                Some(DnsRelayValidationError::ResponseQuestionMismatch)
            } else {
                None
            },
        }
    }
}

fn same_question(a: &DnsQuestion, b: &DnsQuestion) -> (r: bool)
    ensures
        r == (a@ == b@),
{
    if a.record_type != b.record_type || a.class != b.class || a.labels.len() != b.labels.len() {
        assert(a@.labels.len() == a.labels@.len());
        assert(b@.labels.len() == b.labels@.len());
        return false;
    }
    let mut i: usize = 0;
    while i < a.labels.len()
        invariant
            i <= a.labels@.len() == b.labels@.len(),
            a.record_type == b.record_type && a.class == b.class,
            forall|j: int| 0 <= j < i ==> (#[trigger] a.labels@[j])@ == b.labels@[j]@,
        decreases a.labels.len() - i,
    {
        if !text::same_text(a.labels[i].as_str(), b.labels[i].as_str()) {
            assert(a@.labels[i as int] == a.labels@[i as int]@);
            assert(b@.labels[i as int] == b.labels@[i as int]@);
            return false;
        }
        i += 1;
    }
    assert(a@.labels =~= b@.labels);
    true
}

/// Checks a response against the query that was sent.
pub fn validate_dns_relay_response(
    query_len: usize,
    query: Option<&DnsMessage>,
    root_valid: bool,
    response_len: usize,
    response: Option<&DnsMessage>,
) -> (r: Option<DnsRelayValidationError>)
    ensures
        r == relay_response_error(
            query_len as nat,
            message_view(query),
            root_valid,
            response_len as nat,
            message_view(response),
        ),
{
    match validate_dns_relay_query(query_len, query, root_valid, true) {
        Some(e) => {
            return Some(e);
        },
        None => {},
    }
    if response_len > MAX_DNS_RELAY_RESPONSE_SIZE {
        return Some(DnsRelayValidationError::MessageTooLarge);
    }
    match (query, response) {
        (Some(q), Some(m)) => {
            let flags: u16 = m.flags;
            if flags & 0x8000 == 0 || flags & 0x7800 != 0 {
                return Some(DnsRelayValidationError::NotStandardQuery);
            }
            assert(m@.questions.len() == m.questions@.len());
            assert(q@.questions.len() == q.questions@.len());
            if m.questions.len() != 1 {
                return Some(DnsRelayValidationError::InvalidQuestionCount);
            }
            if flags & 0x0100 == 0 || flags & 0x0080 == 0 {
                return Some(DnsRelayValidationError::InvalidRecursiveFlags);
            }
            if m.id != q.id {
                return Some(DnsRelayValidationError::ResponseIdMismatch);
            }
            assert(m@.questions[0] == m.questions@[0]@);
            assert(q@.questions[0] == q.questions@[0]@);
            if !same_question(&m.questions[0], &q.questions[0]) {
                return Some(DnsRelayValidationError::ResponseQuestionMismatch);
            }
            None
        },
        _ => Some(DnsRelayValidationError::MalformedMessage),
    }
}

/// A response that is handed to the caller answers the question that was asked,
/// under its identifier.
pub proof fn relayed_responses_answer_the_question(
    query_len: nat,
    query: Option<MessageView>,
    root_valid: bool,
    response_len: nat,
    response: Option<MessageView>,
)
    requires
        relay_response_error(query_len, query, root_valid, response_len, response) is None,
    ensures
        query is Some && response is Some,
        response->0.id == query->0.id,
        response->0.questions == query->0.questions,
        query->0.questions.len() == 1,
        is_response(response->0.flags) && !is_response(query->0.flags),
{
    assert(response->0.questions =~= query->0.questions);
}

/// A caller's query is relayed exactly where it is a standard query of at most 4096 bytes
/// with one question, of class IN and of a type that a relay resolves, under a valid root;
/// with neither answers nor authorities; whose header sets none of the flags of a response
/// and no error; and whose only additional record is an EDNS record at the root, of
/// version zero and of 512 to 4096 bytes, with nothing but DNSSEC OK set. Where recursion
/// is required, the query also asks for it and disables checking.
pub proof fn queries_are_relayed_exactly(
    len: nat,
    m: MessageView,
    root_valid: bool,
    require_recursive: bool,
)
    ensures
        query_error(len, None, root_valid, require_recursive) is Some,
        query_error(len, Some(m), root_valid, require_recursive) is None <==> {
            let kind = m.questions[0].record_type;
            let opt = m.additionals[0];
            &&& len <= 4096
            &&& m.flags & 0x8000 == 0 && m.flags & 0x7800 == 0
            &&& m.flags & 0x06c0 == 0 && m.flags & 0x000f == 0
            &&& m.questions.len() == 1
            &&& m.questions[0].class == 1
            &&& m.questions[0].labels.len() > 0 && root_valid
            &&& (kind == 1 || kind == 2 || kind == 5 || kind == 6 || kind == 15 || kind == 16
                || kind == 28 || kind == 33 || kind == 39 || kind == 43 || kind == 46 || kind == 47
                || kind == 48 || kind == 50 || kind == 51 || kind == 52 || kind == 64 || kind == 65
                || kind == 257)
            &&& m.answers == 0 && m.authorities == 0
            &&& require_recursive ==> m.flags & 0x0100 != 0 && m.flags & 0x0010 != 0
            &&& m.additionals.len() == 1
            &&& opt.record_type == 41 && opt.labels.len() == 0
            &&& 512 <= opt.class <= 4096
            &&& opt.ttl == 0x8000
            &&& options_error(opt.rdata) is None
        },
{
    let t = supported_types();
    let kind = m.questions[0].record_type;
    assert(t.len() == 19);
    assert(t[0] == 1 && t[1] == 2 && t[2] == 5 && t[3] == 6 && t[4] == 15 && t[5] == 16 && t[6]
        == 28 && t[7] == 33 && t[8] == 39 && t[9] == 43 && t[10] == 46 && t[11] == 47 && t[12] == 48
        && t[13] == 50 && t[14] == 51 && t[15] == 52 && t[16] == 64 && t[17] == 65 && t[18] == 257);
    assert(0x8000u32 & 0x8000u32 != 0) by (bit_vector);
}

/// The options of a query may be any number of paddings: each padding leaves the verdict
/// to what follows it. A client subnet is refused as such; any other option, and one that
/// is cut short, is refused as EDNS that is not relayed.
pub proof fn only_padding_is_relayed(high: u8, low: u8, data: Seq<u8>, rest: Seq<u8>)
    requires
        data.len() <= 0xffff,
    ensures
        options_error(Seq::empty()) is None,
        ({
            let size = seq![(data.len() / 256) as u8, (data.len() % 256) as u8];
            let option = seq![high, low] + size + data;
            let verdict = options_error(option + rest);
            &&& high == 0 && low == 12 ==> verdict == options_error(rest)
            &&& high == 0 && low == 8 ==> verdict == Some(
                DnsRelayValidationError::EdnsClientSubnetForbidden,
            )
            &&& !(high == 0 && (low == 8 || low == 12)) ==> verdict == Some(
                DnsRelayValidationError::InvalidEdns,
            )
            &&& forall|k: int|
                0 < k < option.len() ==> options_error(#[trigger] option.take(k)) == Some(
                    DnsRelayValidationError::InvalidEdns,
                )
        }),
{
    let size = seq![(data.len() / 256) as u8, (data.len() % 256) as u8];
    let option = seq![high, low] + size + data;
    let s = option + rest;
    assert(s[0] == high && s[1] == low && s[2] == size[0] && s[3] == size[1]);
    assert(s[2] * 256 + s[3] == data.len());
    assert(s.skip(4 + data.len() as int) =~= rest);
    assert forall|k: int| 0 < k < option.len() implies options_error(#[trigger] option.take(k))
        == Some(DnsRelayValidationError::InvalidEdns) by {
        let t = option.take(k);
        if k >= 4 {
            assert(t[0] == high && t[1] == low && t[2] == size[0] && t[3] == size[1]);
        }
    }
}

/// A response to an accepted query is handed over exactly where it is a standard response
/// of at most 65535 bytes that asks for recursion and offers it, to the one question that
/// was asked, under its identifier. Its error code, its other flags and its records are
/// the caller's business.
pub proof fn answers_are_handed_over(
    query_len: nat,
    query: MessageView,
    root_valid: bool,
    response_len: nat,
    response: MessageView,
)
    requires
        query_error(query_len, Some(query), root_valid, true) is None,
    ensures
        relay_response_error(query_len, Some(query), root_valid, response_len, None) is Some,
        relay_response_error(query_len, Some(query), root_valid, response_len, Some(response))
            is None <==> {
            &&& response_len <= 65535
            &&& response.flags & 0x8000 != 0
            &&& response.flags & 0x7800 == 0
            &&& response.flags & 0x0100 != 0
            &&& response.flags & 0x0080 != 0
            &&& response.id == query.id
            &&& response.questions.len() == 1
            &&& response.questions[0] == query.questions[0]
        },
{
}

/// Two responses of one size with the same identifier and questions, and the same word on
/// what they are and on recursion, meet the same fate, whatever else they say. A query
/// that is not relayed is named as the fault, whatever came back for it.
pub proof fn verdicts_on_answers_look_no_further(
    query_len: nat,
    query: Option<MessageView>,
    root_valid: bool,
    response_len: nat,
    a: MessageView,
    b: MessageView,
)
    requires
        a.id == b.id,
        a.questions == b.questions,
        a.flags & 0xf980 == b.flags & 0xf980,
    ensures
        relay_response_error(query_len, query, root_valid, response_len, Some(a))
            == relay_response_error(query_len, query, root_valid, response_len, Some(b)),
        query_error(query_len, query, root_valid, true) is Some ==> relay_response_error(
            query_len,
            query,
            root_valid,
            response_len,
            Some(a),
        ) == query_error(query_len, query, root_valid, true),
{
    let (f, g) = (a.flags, b.flags);
    assert(f & 0x8000 == g & 0x8000 && f & 0x7800 == g & 0x7800 && f & 0x0100 == g & 0x0100 && f
        & 0x0080 == g & 0x0080) by (bit_vector)
        requires
            f & 0xf980 == g & 0xf980,
    ;
}

/// Each fault of a response has its own name.
pub proof fn faults_of_answers_are_named(
    query_len: nat,
    query: MessageView,
    root_valid: bool,
    response_len: nat,
    good: MessageView,
    id: u16,
    flags: u16,
    questions: Seq<QuestionView>,
)
    requires
        relay_response_error(query_len, Some(query), root_valid, response_len, Some(good)) is None,
    ensures
        ({
            let fault = |m: MessageView|
                relay_response_error(query_len, Some(query), root_valid, response_len, Some(m));
            let named = |e: DnsRelayValidationError| Some(e);
            &&& id != good.id ==> fault(MessageView { id, ..good }) == named(
                DnsRelayValidationError::ResponseIdMismatch,
            )
            &&& questions.len() != 1 ==> fault(MessageView { questions, ..good }) == named(
                DnsRelayValidationError::InvalidQuestionCount,
            )
            &&& questions.len() == 1 && questions != good.questions ==> fault(
                MessageView { questions, ..good },
            ) == named(DnsRelayValidationError::ResponseQuestionMismatch)
            &&& flags & 0x8000 == 0 || flags & 0x7800 != 0 ==> fault(MessageView { flags, ..good })
                == named(DnsRelayValidationError::NotStandardQuery)
            &&& flags & 0x8000 != 0 && flags & 0x7800 == 0 && (flags & 0x0100 == 0 || flags & 0x0080
                == 0) ==> fault(MessageView { flags, ..good }) == named(
                DnsRelayValidationError::InvalidRecursiveFlags,
            )
        }),
        forall|n: nat|
            n > 65535 ==> #[trigger] relay_response_error(
                query_len,
                Some(query),
                root_valid,
                n,
                Some(good),
            ) == Some(DnsRelayValidationError::MessageTooLarge),
        relay_response_error(query_len, Some(query), root_valid, response_len, None) == Some(
            DnsRelayValidationError::MalformedMessage,
        ),
{
    if questions.len() == 1 && questions[0] == good.questions[0] {
        assert(questions =~= good.questions);
    }
}

/// Each status has its number, and the numbers past the last are none.
pub proof fn statuses_have_their_numbers(s: DnsRelayStatus, code: u8)
    ensures
        status_of(status_code(s)) == Ok::<DnsRelayStatus, P2pError>(s),
        code < 8 ==> status_of(code) is Ok && status_code(status_of(code)->Ok_0) == code,
        code >= 8 ==> status_of(code) == Err::<DnsRelayStatus, P2pError>(
            P2pError::InvalidDnsRelayStatus,
        ),
        status_code(DnsRelayStatus::Success) == 0,
        status_code(DnsRelayStatus::Refused) == 1,
        status_code(DnsRelayStatus::Unsupported) == 2,
        status_code(DnsRelayStatus::Busy) == 3,
        status_code(DnsRelayStatus::InvalidQuery) == 4,
        status_code(DnsRelayStatus::ResolverUnavailable) == 5,
        status_code(DnsRelayStatus::Timeout) == 6,
        status_code(DnsRelayStatus::InternalError) == 7,
{
}

/// A request has a number other than zero and a query of one to four thousand and ninety-six
/// bytes; it is the number, the length and the query.
pub proof fn requests_are_made_exactly(p: RelayRequestView)
    ensures
        ({
            let r = encoded_request(p);
            let n = p.query.len();
            let is = |e: P2pError| r == Err::<Seq<u8>, P2pError>(e);
            &&& r is Ok <==> p.request_id != 0 && 1 <= n <= 4096
            &&& r is Ok ==> {
                let b = r->Ok_0;
                &&& b.len() == 10 + n
                &&& b.subrange(0, 8) == wire::le_bytes(p.request_id as nat, 8)
                &&& b.subrange(8, 10) == wire::le_bytes(n, 2)
                &&& b.subrange(10, 10 + n as int) == p.query
            }
            &&& p.request_id == 0 ==> is(P2pError::InvalidDnsRelayRequestId)
            &&& p.request_id != 0 && n == 0 ==> is(
                P2pError::InvalidDnsRelayPacket(RelayPacketFault::EmptyQuery),
            )
            &&& p.request_id != 0 && n > 4096 ==> is(P2pError::DnsRelayQueryTooLarge)
        }),
{
    let n = p.query.len();
    wire::lemma_le_bytes_len(p.request_id as nat, 8);
    wire::lemma_le_bytes_len(n, 2);
    let b = request_bytes(p);
    assert(b.subrange(0, 8) =~= wire::le_bytes(p.request_id as nat, 8));
    assert(b.subrange(8, 10) =~= wire::le_bytes(n, 2));
    assert(b.subrange(10, 10 + n as int) =~= p.query);
}

/// A response has a number other than zero, and a body of up to sixty-five thousand five
/// hundred and thirty-five bytes exactly where it is a success; it is the number, the
/// status, the length and the body.
pub proof fn responses_are_made_exactly(p: RelayResponseView)
    ensures
        ({
            let r = encoded_response(p);
            let n = p.response.len();
            let is = |e: P2pError| r == Err::<Seq<u8>, P2pError>(e);
            let sized = p.request_id != 0 && n <= 65535;
            &&& r is Ok <==> sized && (p.status is Success <==> n > 0)
            &&& r is Ok ==> {
                let b = r->Ok_0;
                &&& b.len() == 11 + n
                &&& b.subrange(0, 8) == wire::le_bytes(p.request_id as nat, 8)
                &&& b[8] == status_code(p.status)
                &&& b.subrange(9, 11) == wire::le_bytes(n, 2)
                &&& b.subrange(11, 11 + n as int) == p.response
            }
            &&& p.request_id == 0 ==> is(P2pError::InvalidDnsRelayRequestId)
            &&& p.request_id != 0 && n > 65535 ==> is(P2pError::DnsRelayResponseTooLarge)
            &&& sized && p.status is Success && n == 0 ==> is(
                P2pError::InvalidDnsRelayPacket(RelayPacketFault::EmptyResponse),
            )
            &&& sized && !(p.status is Success) && n > 0 ==> is(
                P2pError::InvalidDnsRelayPacket(RelayPacketFault::BodyOnError),
            )
        }),
{
    let n = p.response.len();
    wire::lemma_le_bytes_len(p.request_id as nat, 8);
    wire::lemma_le_bytes_len(n, 2);
    let b = response_bytes(p);
    assert(b.subrange(0, 8) =~= wire::le_bytes(p.request_id as nat, 8));
    assert(b.subrange(9, 11) =~= wire::le_bytes(n, 2));
    assert(b.subrange(11, 11 + n as int) =~= p.response);
}

/// A request that is read is written as it was; one that is not is short, has no number, is
/// too large, goes on too long, or has no query.
pub proof fn requests_are_read_exactly(payload: Seq<u8>)
    ensures
        ({
            let id = wire::le_number(payload.subrange(0, 8));
            let n = wire::le_number(payload.subrange(8, 10));
            let r = decoded_request(payload);
            let is = |e: P2pError| r == Err::<RelayRequestView, P2pError>(e);
            let short = P2pError::Parse(ParseError::UnexpectedEof);
            &&& r is Ok <==> payload.len() >= 10 && id != 0 && 1 <= n <= 4096 && payload.len() == 10
                + n
            &&& r is Ok ==> r->Ok_0.request_id == id && r->Ok_0.query == payload.subrange(
                10,
                payload.len() as int,
            )
            &&& payload.len() < 10 ==> is(short)
            &&& payload.len() >= 10 && id == 0 ==> is(P2pError::InvalidDnsRelayRequestId)
            &&& payload.len() >= 10 && id != 0 && n > 4096 ==> is(P2pError::DnsRelayQueryTooLarge)
            &&& payload.len() >= 10 && id != 0 && n <= 4096 && payload.len() < 10 + n ==> is(short)
            &&& payload.len() >= 10 && id != 0 && n <= 4096 && payload.len() > 10 + n ==> is(
                P2pError::TrailingBytes,
            )
            &&& payload.len() == 10 && id != 0 && n == 0 ==> is(
                P2pError::InvalidDnsRelayPacket(RelayPacketFault::EmptyQuery),
            )
        }),
{
    if payload.len() >= 10 {
        assert(payload.take(8) =~= payload.subrange(0, 8));
        assert(payload.skip(10) =~= payload.subrange(10, payload.len() as int));
        wire::lemma_le_number_bound(payload.subrange(0, 8));
        wire::lemma_byte_powers();
    }
}

/// A response that is read has a number, a known status, and the body that its status and
/// its length ask for.
pub proof fn responses_are_read_exactly(payload: Seq<u8>)
    ensures
        ({
            let id = wire::le_number(payload.subrange(0, 8));
            let n = wire::le_number(payload.subrange(9, 11));
            let r = decoded_response(payload);
            let is = |e: P2pError| r == Err::<RelayResponseView, P2pError>(e);
            let short = P2pError::Parse(ParseError::UnexpectedEof);
            let known = payload.len() >= 11 && id != 0 && payload[8] < 8;
            &&& r is Ok <==> known && payload.len() == 11 + n && (payload[8] == 0 <==> n > 0)
            &&& r is Ok ==> r->Ok_0.request_id == id && status_code(r->Ok_0.status) == payload[8]
                && r->Ok_0.response == payload.subrange(11, payload.len() as int)
            &&& payload.len() < 11 ==> is(short)
            &&& payload.len() >= 11 && id == 0 ==> is(P2pError::InvalidDnsRelayRequestId)
            &&& payload.len() >= 11 && id != 0 && payload[8] >= 8 ==> is(
                P2pError::InvalidDnsRelayStatus,
            )
            &&& known && payload.len() < 11 + n ==> is(short)
            &&& known && payload.len() > 11 + n ==> is(P2pError::TrailingBytes)
        }),
{
    if payload.len() >= 11 {
        assert(payload.take(8) =~= payload.subrange(0, 8));
        assert(payload.skip(11) =~= payload.subrange(11, payload.len() as int));
        wire::lemma_le_number_bound(payload.subrange(0, 8));
        wire::lemma_le_number_bound(payload.subrange(9, 11));
        wire::lemma_byte_powers();
    }
}

/// What is wrong with a query is told in this order: its size, its form, its kind, the
/// number of questions, its flags, its class, its type, its name, its sections, its
/// recursion, and its EDNS record.
pub proof fn faults_of_queries_are_named(
    len: nat,
    m: MessageView,
    root_valid: bool,
    require_recursive: bool,
)
    ensures
        ({
            let e = query_error(len, Some(m), root_valid, require_recursive);
            let q = m.questions[0];
            let sized = len <= 4096;
            let asked = sized && m.flags & 0x8000 == 0 && m.flags & 0x7800 == 0;
            let one = asked && m.questions.len() == 1;
            let clean = one && m.flags & 0x06c0 == 0 && m.flags & 0x000f == 0;
            let internet = clean && q.class == 1;
            let typed = internet && supported_types().contains(q.record_type);
            let named = typed && q.labels.len() > 0 && root_valid;
            let bare = named && m.answers == 0 && m.authorities == 0;
            let recursive = bare && (require_recursive ==> m.flags & 0x0100 != 0 && m.flags & 0x0010
                != 0);
            &&& !sized ==> e == Some(DnsRelayValidationError::MessageTooLarge)
            &&& sized && !asked ==> e == Some(DnsRelayValidationError::NotStandardQuery)
            &&& asked && !one ==> e == Some(DnsRelayValidationError::InvalidQuestionCount)
            &&& one && !clean ==> e == Some(DnsRelayValidationError::InvalidQueryFlags)
            &&& clean && !internet ==> e == Some(DnsRelayValidationError::InvalidQuestionClass)
            &&& internet && !typed ==> e == Some(DnsRelayValidationError::UnsupportedQuestionType)
            &&& typed && !named ==> e == Some(DnsRelayValidationError::InvalidHnsRoot)
            &&& named && !bare ==> e == Some(DnsRelayValidationError::QueryHasResponseSections)
            &&& bare && !recursive ==> e == Some(DnsRelayValidationError::InvalidRecursiveFlags)
            &&& recursive ==> e == edns_error(m.additionals)
            &&& sized ==> query_error(len, None, root_valid, require_recursive) == Some(
                DnsRelayValidationError::MalformedMessage,
            )
        }),
{
}

/// An EDNS record is the only additional one, at the root, of a size from five hundred and
/// twelve to four thousand and ninety-six, asks for DNSSEC and for nothing else.
pub proof fn faults_of_edns_are_named(additionals: Seq<RecordView>)
    ensures
        ({
            let e = edns_error(additionals);
            let opt = additionals[0];
            let there = additionals.len() == 1 && opt.record_type == 41 && opt.labels.len() == 0;
            let sized = there && 512 <= opt.class <= 4096;
            &&& !there ==> e == Some(DnsRelayValidationError::InvalidEdns)
            &&& there && !sized ==> e == Some(DnsRelayValidationError::InvalidEdnsSize)
            &&& sized && opt.ttl & 0x8000 == 0 ==> e == Some(
                DnsRelayValidationError::DnssecOkRequired,
            )
            &&& sized && opt.ttl & 0x8000 != 0 && opt.ttl != 0x8000 ==> e == Some(
                DnsRelayValidationError::InvalidEdns,
            )
            &&& sized && opt.ttl == 0x8000 ==> e == options_error(opt.rdata)
        }),
{
    assert(0x8000u32 & 0x8000 != 0) by (bit_vector);
}

/// A query is prepared exactly where it may be relayed but for its recursion, which is then
/// asked for; a fault is handed back.
pub proof fn good_queries_are_prepared(query: Seq<u8>, m: Option<MessageView>, root_valid: bool)
    ensures
        ({
            let e = query_error(query.len(), m, root_valid, false);
            let r = prepared_query(query, m, root_valid);
            &&& r is Ok <==> e is None && query.len() >= 4
            &&& e is Some ==> r == Err::<Seq<u8>, DnsRelayValidationError>(e->Some_0)
            &&& e is None && query.len() < 4 ==> r == Err::<Seq<u8>, DnsRelayValidationError>(
                DnsRelayValidationError::MalformedMessage,
            )
        }),
{
}

/// A request that is made or read is the one that is meant, and so is a fault.
pub proof fn relay_requests_agree(
    r: Result<GetDnsRelayPacket, P2pError>,
    v: Result<RelayRequestView, P2pError>,
)
    ensures
        same_request(r, v) <==> {
            &&& r is Ok <==> v is Ok
            &&& r is Ok ==> r->Ok_0@ == v->Ok_0
            &&& r is Err ==> r->Err_0 == v->Err_0
        },
{
}

/// A response that is made or read is the one that is meant, and so is a fault.
pub proof fn relay_responses_agree(
    r: Result<DnsRelayPacket, P2pError>,
    v: Result<RelayResponseView, P2pError>,
)
    ensures
        same_response(r, v) <==> {
            &&& r is Ok <==> v is Ok
            &&& r is Ok ==> r->Ok_0@ == v->Ok_0
            &&& r is Err ==> r->Err_0 == v->Err_0
        },
{
}

/// What is written is the bytes that are meant, and so is a fault.
pub proof fn relayed_bytes_agree(
    r: Result<Vec<u8>, P2pError>,
    v: Result<Seq<u8>, P2pError>,
)
    ensures
        same_bytes(r, v) <==> {
            &&& r is Ok <==> v is Ok
            &&& r is Ok ==> r->Ok_0@ == v->Ok_0
            &&& r is Err ==> r->Err_0 == v->Err_0
        },
{
}

/// The verdict on a query, and on an answer to it, is the first fault there is, and a query
/// is prepared as it is told.
pub proof fn verdicts_are_given(
    len: usize,
    query: &DnsMessage,
    root_valid: bool,
    require_recursive: bool,
    of_query: Option<DnsRelayValidationError>,
    response_len: usize,
    response: &DnsMessage,
    of_response: Option<DnsRelayValidationError>,
    bytes: &[u8],
    prepared: Result<Vec<u8>, DnsRelayValidationError>,
)
    requires
        call_ensures(
            validate_dns_relay_query,
            (len, Some(query), root_valid, require_recursive),
            of_query,
        ),
        call_ensures(
            validate_dns_relay_response,
            (len, Some(query), root_valid, response_len, Some(response)),
            of_response,
        ),
        call_ensures(prepare_dns_relay_query, (bytes, Some(query), root_valid), prepared),
    ensures
        of_query == query_error(len as nat, Some(query@), root_valid, require_recursive),
        of_response == relay_response_error(
            len as nat,
            Some(query@),
            root_valid,
            response_len as nat,
            Some(response@),
        ),
        ({
            let meant = prepared_query(bytes@, Some(query@), root_valid);
            &&& prepared is Ok <==> meant is Ok
            &&& prepared is Ok ==> prepared->Ok_0@ == meant->Ok_0
            &&& prepared is Err ==> prepared->Err_0 == meant->Err_0
        }),
{
}

/// Each verdict is told in its own words.
pub proof fn verdicts_have_their_words(e: DnsRelayValidationError)
    ensures
        validation_error_text(e) == (match e {
            DnsRelayValidationError::MessageTooLarge => "DNS message exceeds the relay limit"@,
            DnsRelayValidationError::MalformedMessage => "malformed DNS message"@,
            DnsRelayValidationError::NotStandardQuery => "DNS relay requires a standard QUERY"@,
            DnsRelayValidationError::InvalidQuestionCount
                => "DNS relay requires exactly one question"@,
            DnsRelayValidationError::InvalidQuestionClass
                => "DNS relay requires an IN-class question"@,
            DnsRelayValidationError::QueryHasResponseSections
                => "DNS relay query contains response sections"@,
            DnsRelayValidationError::InvalidQueryFlags => "DNS relay query has invalid header flags"@,
            DnsRelayValidationError::UnsupportedQuestionType
                => "DNS relay question type is not supported"@,
            DnsRelayValidationError::InvalidHnsRoot
                => "DNS relay question has an invalid Handshake root"@,
            DnsRelayValidationError::InvalidEdns => "DNS relay requires exactly one EDNS OPT record"@,
            DnsRelayValidationError::InvalidEdnsSize
                => "DNS relay EDNS payload size is outside 512 through 4096 bytes"@,
            DnsRelayValidationError::DnssecOkRequired => "DNSSEC OK is not set"@,
            DnsRelayValidationError::EdnsClientSubnetForbidden => "EDNS Client Subnet is forbidden"@,
            DnsRelayValidationError::InvalidRecursiveFlags => "recursive DNS flags are inconsistent"@,
            DnsRelayValidationError::ResponseIdMismatch => "DNS response identifier does not match"@,
            DnsRelayValidationError::ResponseQuestionMismatch
                => "DNS response question does not match"@,
        }),
{
}

/// Each status has its name.
pub proof fn statuses_have_their_names(s: DnsRelayStatus)
    ensures
        status_name(s) == (match s {
            DnsRelayStatus::Success => "Ok"@,
            DnsRelayStatus::Refused => "Refused"@,
            DnsRelayStatus::Unsupported => "Unsupported"@,
            DnsRelayStatus::Busy => "Busy"@,
            DnsRelayStatus::InvalidQuery => "InvalidQuery"@,
            DnsRelayStatus::ResolverUnavailable => "ResolverUnavailable"@,
            DnsRelayStatus::Timeout => "Timeout"@,
            DnsRelayStatus::InternalError => "InternalError"@,
        }),
{
}

} // verus!

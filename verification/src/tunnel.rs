//! Copying between a client and an origin: response bodies of a known length,
//! upgraded connections, and CONNECT tunnels.

use crate::http1::IoKind;
use crate::tls;
use vstd::prelude::*;

verus! {

pub const RESPONSE_COPY_BUFFER_BYTES: usize = 16384;

pub const TUNNEL_COPY_BUFFER_BYTES: usize = 16384;

/// Why a response was not delivered.
#[derive(Clone, Copy, Debug, PartialEq, Eq, Structural)]
pub enum WriteBackendError {
    /// The response is invalid, and nothing of it was sent.
    InvalidBeforeHead,
    /// The body is invalid, and the head was sent.
    InvalidAfterHead,
    /// The client is gone, or the work was cancelled.
    Io,
}

// ---------------------------------------------------------------------
// Bodies of a known length
// ---------------------------------------------------------------------

#[derive(Clone, Copy, Debug, PartialEq, Eq, Structural)]
pub enum CopyStage {
    /// Before the next read.
    Idle,
    /// At most so many bytes are read.
    Reading(usize),
    /// So many bytes are written.
    Writing(usize),
    Finished,
    Failed(WriteBackendError),
}

#[derive(Clone, Copy, Debug, PartialEq, Eq, Structural)]
pub enum CopyEvent {
    /// The copy goes on, unless it was cancelled.
    Next { cancelled: bool },
    /// So many bytes were read; nothing where the reader failed.
    Read(Option<usize>),
    /// The bytes were written, or not.
    Written(bool),
}

/// What is left of a body, and what happens next.
#[derive(Clone, Copy, Debug, PartialEq, Eq, Structural)]
pub struct ExactCopy {
    pub remaining: u64,
    pub stage: CopyStage,
}

pub open spec fn read_limit(remaining: u64) -> usize {
    if remaining < RESPONSE_COPY_BUFFER_BYTES {
        remaining as usize
    } else {
        RESPONSE_COPY_BUFFER_BYTES
    }
}

pub open spec fn copy_step(s: ExactCopy, event: CopyEvent) -> ExactCopy {
    match (s.stage, event) {
        (CopyStage::Idle, CopyEvent::Next { cancelled }) => ExactCopy {
            stage: if s.remaining == 0 {
                CopyStage::Finished
            } else if cancelled {
                CopyStage::Failed(WriteBackendError::Io)
            } else {
                CopyStage::Reading(read_limit(s.remaining))
            },
            ..s
        },
        (CopyStage::Reading(limit), CopyEvent::Read(Some(count))) => ExactCopy {
            stage: if count == 0 || count > limit || count > s.remaining {
                CopyStage::Failed(WriteBackendError::InvalidAfterHead)
            } else {
                CopyStage::Writing(count)
            },
            ..s
        },
        (CopyStage::Reading(_), CopyEvent::Read(None)) => ExactCopy {
            stage: CopyStage::Failed(WriteBackendError::InvalidAfterHead),
            ..s
        },
        (CopyStage::Writing(count), CopyEvent::Written(ok)) => if !ok || count > s.remaining {
            ExactCopy { stage: CopyStage::Failed(WriteBackendError::Io), ..s }
        } else {
            ExactCopy { remaining: (s.remaining - count) as u64, stage: CopyStage::Idle }
        },
        (CopyStage::Finished, _) | (CopyStage::Failed(_), _) => s,
        _ => ExactCopy { stage: CopyStage::Failed(WriteBackendError::InvalidAfterHead), ..s },
    }
}

impl ExactCopy {
    /// A copy of exactly so many bytes.
    pub fn new(expected: u64) -> (r: Self)
        ensures
            r == (ExactCopy { remaining: expected, stage: CopyStage::Idle }),
    {
        ExactCopy { remaining: expected, stage: CopyStage::Idle }
    }

    pub fn step(&mut self, event: CopyEvent)
        ensures
            *final(self) == copy_step(*old(self), event),
    {
        match (self.stage, event) {
            (CopyStage::Idle, CopyEvent::Next { cancelled }) => {
                if self.remaining == 0 {
                    self.stage = CopyStage::Finished;
                } else if cancelled {
                    self.stage = CopyStage::Failed(WriteBackendError::Io);
                } else if self.remaining < RESPONSE_COPY_BUFFER_BYTES as u64 {
                    self.stage = CopyStage::Reading(self.remaining as usize);
                } else {
                    self.stage = CopyStage::Reading(RESPONSE_COPY_BUFFER_BYTES);
                }
            },
            (CopyStage::Reading(limit), CopyEvent::Read(Some(count))) => {
                if count == 0 || count > limit || count as u64 > self.remaining {
                    self.stage = CopyStage::Failed(WriteBackendError::InvalidAfterHead);
                } else {
                    self.stage = CopyStage::Writing(count);
                }
            },
            (CopyStage::Reading(_), CopyEvent::Read(None)) => {
                self.stage = CopyStage::Failed(WriteBackendError::InvalidAfterHead);
            },
            (CopyStage::Writing(count), CopyEvent::Written(ok)) => {
                if !ok || count as u64 > self.remaining {
                    self.stage = CopyStage::Failed(WriteBackendError::Io);
                } else {
                    self.remaining = self.remaining - count as u64;
                    self.stage = CopyStage::Idle;
                }
            },
            (CopyStage::Finished, _) | (CopyStage::Failed(_), _) => {},
            _ => {
                self.stage = CopyStage::Failed(WriteBackendError::InvalidAfterHead);
            },
        }
    }
}

/// A copy after a sequence of events.
pub open spec fn copy_run(expected: u64, events: Seq<CopyEvent>) -> ExactCopy
    decreases events.len(),
{
    if events.len() == 0 {
        ExactCopy { remaining: expected, stage: CopyStage::Idle }
    } else {
        copy_step(copy_run(expected, events.drop_last()), events.last())
    }
}

/// How many bytes the events wrote.
pub open spec fn copied(expected: u64, events: Seq<CopyEvent>) -> int
    decreases events.len(),
{
    if events.len() == 0 {
        0
    } else {
        let before = copy_run(expected, events.drop_last());
        copied(expected, events.drop_last()) + (match (before.stage, events.last()) {
            (CopyStage::Writing(count), CopyEvent::Written(true)) => count as int,
            _ => 0,
        })
    }
}

/// Whatever the reader and the client do, a copy never writes more than the
/// announced length, and it finishes only when it wrote exactly that.
pub proof fn copies_are_exact(expected: u64, events: Seq<CopyEvent>)
    ensures
        copied(expected, events) + copy_run(expected, events).remaining == expected,
        copied(expected, events) <= expected,
        copy_run(expected, events).stage == CopyStage::Finished ==> copied(expected, events)
            == expected,
    decreases events.len(),
{
    lemma_copy_invariant(expected, events);
}

proof fn lemma_copy_invariant(expected: u64, events: Seq<CopyEvent>)
    ensures
        copied(expected, events) + copy_run(expected, events).remaining == expected,
        match copy_run(expected, events).stage {
            CopyStage::Finished => copy_run(expected, events).remaining == 0,
            CopyStage::Writing(count) => count <= copy_run(expected, events).remaining,
            _ => true,
        },
    decreases events.len(),
{
    if events.len() > 0 {
        lemma_copy_invariant(expected, events.drop_last());
    }
}

// ---------------------------------------------------------------------
// Upgraded connections
// ---------------------------------------------------------------------

/// How a tunnel ended.
#[derive(Clone, Copy, Debug, PartialEq, Eq, Structural)]
pub enum TunnelPumpOutcome {
    Completed,
    ClientIo,
    OriginIo,
    Cancelled,
}

/// What a read on a tunnel gave.
#[derive(Clone, Copy, Debug, PartialEq, Eq, Structural)]
pub enum TunnelRead {
    Bytes(usize),
    Failed(IoKind),
}

#[derive(Clone, Copy, Debug, PartialEq, Eq, Structural)]
pub enum PumpStage {
    /// It is the client's turn.
    ClientTurn,
    ClientReading,
    /// So many bytes of the client go to the origin.
    OriginWriting(usize),
    /// It is the origin's turn.
    OriginTurn,
    OriginReading,
    /// So many bytes of the origin go to the client.
    ClientWriting(usize),
    Ended(TunnelPumpOutcome),
}

#[derive(Clone, Copy, Debug, PartialEq, Eq, Structural)]
pub enum PumpEvent {
    /// The client's turn begins; its read deadline was set, or not.
    ClientReady { cancelled: bool, deadline_set: bool },
    /// The client was read; its read deadline was cleared, or not.
    ClientRead { read: TunnelRead, deadline_cleared: bool },
    OriginWritten(bool),
    OriginReady { cancelled: bool },
    OriginRead(TunnelRead),
    ClientWritten(bool),
}

/// The stage after a read: the bytes are passed on, the other side gets its turn,
/// or the tunnel ends.
pub open spec fn after_read(
    read: TunnelRead,
    write: spec_fn(usize) -> PumpStage,
    turn: PumpStage,
    failure: TunnelPumpOutcome,
) -> PumpStage {
    match read {
        TunnelRead::Bytes(count) => if count == 0 {
            PumpStage::Ended(TunnelPumpOutcome::Completed)
        } else if count > TUNNEL_COPY_BUFFER_BYTES {
            PumpStage::Ended(failure)
        } else {
            write(count)
        },
        TunnelRead::Failed(kind) => if tls::is_retryable(kind) {
            turn
        } else {
            PumpStage::Ended(failure)
        },
    }
}

pub open spec fn pump_step(s: PumpStage, event: PumpEvent) -> PumpStage {
    match (s, event) {
        (PumpStage::Ended(_), _) => s,
        (PumpStage::ClientTurn, PumpEvent::ClientReady { cancelled, deadline_set }) =>
            if cancelled {
                PumpStage::Ended(TunnelPumpOutcome::Cancelled)
            } else if !deadline_set {
                PumpStage::Ended(TunnelPumpOutcome::ClientIo)
            } else {
                PumpStage::ClientReading
            },
        (PumpStage::ClientReading, PumpEvent::ClientRead { read, deadline_cleared }) =>
            if !deadline_cleared {
                PumpStage::Ended(TunnelPumpOutcome::ClientIo)
            } else {
                after_read(
                    read,
                    |n: usize| PumpStage::OriginWriting(n),
                    PumpStage::OriginTurn,
                    TunnelPumpOutcome::ClientIo,
                )
            },
        (PumpStage::OriginWriting(_), PumpEvent::OriginWritten(ok)) => if ok {
            PumpStage::OriginTurn
        } else {
            PumpStage::Ended(TunnelPumpOutcome::OriginIo)
        },
        (PumpStage::OriginTurn, PumpEvent::OriginReady { cancelled }) => if cancelled {
            PumpStage::Ended(TunnelPumpOutcome::Cancelled)
        } else {
            PumpStage::OriginReading
        },
        (PumpStage::OriginReading, PumpEvent::OriginRead(read)) => after_read(
            read,
            |n: usize| PumpStage::ClientWriting(n),
            PumpStage::ClientTurn,
            TunnelPumpOutcome::OriginIo,
        ),
        (PumpStage::ClientWriting(_), PumpEvent::ClientWritten(ok)) => if ok {
            PumpStage::ClientTurn
        } else {
            PumpStage::Ended(TunnelPumpOutcome::ClientIo)
        },
        _ => PumpStage::Ended(TunnelPumpOutcome::OriginIo),
    }
}

/// The pump of one upgraded connection.
#[derive(Clone, Copy, Debug, PartialEq, Eq, Structural)]
pub struct TunnelPump {
    pub stage: PumpStage,
}

impl TunnelPump {
    pub fn new() -> (r: Self)
        ensures
            r == (TunnelPump { stage: PumpStage::ClientTurn }),
    {
        TunnelPump { stage: PumpStage::ClientTurn }
    }

    pub fn step(&mut self, event: PumpEvent)
        ensures
            final(self).stage == pump_step(old(self).stage, event),
    {
        let next = match (self.stage, event) {
            (PumpStage::Ended(o), _) => PumpStage::Ended(o),
            (PumpStage::ClientTurn, PumpEvent::ClientReady { cancelled, deadline_set }) => {
                if cancelled {
                    PumpStage::Ended(TunnelPumpOutcome::Cancelled)
                } else if !deadline_set {
                    PumpStage::Ended(TunnelPumpOutcome::ClientIo)
                } else {
                    PumpStage::ClientReading
                }
            },
            (PumpStage::ClientReading, PumpEvent::ClientRead { read, deadline_cleared }) => {
                if !deadline_cleared {
                    PumpStage::Ended(TunnelPumpOutcome::ClientIo)
                } else {
                    match read {
                        TunnelRead::Bytes(count) => if count == 0 {
                            PumpStage::Ended(TunnelPumpOutcome::Completed)
                        } else if count > TUNNEL_COPY_BUFFER_BYTES {
                            PumpStage::Ended(TunnelPumpOutcome::ClientIo)
                        } else {
                            PumpStage::OriginWriting(count)
                        },
                        TunnelRead::Failed(kind) => if tls::retryable(kind) {
                            PumpStage::OriginTurn
                        } else {
                            PumpStage::Ended(TunnelPumpOutcome::ClientIo)
                        },
                    }
                }
            },
            (PumpStage::OriginWriting(_), PumpEvent::OriginWritten(ok)) => if ok {
                PumpStage::OriginTurn
            } else {
                PumpStage::Ended(TunnelPumpOutcome::OriginIo)
            },
            (PumpStage::OriginTurn, PumpEvent::OriginReady { cancelled }) => if cancelled {
                PumpStage::Ended(TunnelPumpOutcome::Cancelled)
            } else {
                PumpStage::OriginReading
            },
            (PumpStage::OriginReading, PumpEvent::OriginRead(read)) => match read {
                TunnelRead::Bytes(count) => if count == 0 {
                    PumpStage::Ended(TunnelPumpOutcome::Completed)
                } else if count > TUNNEL_COPY_BUFFER_BYTES {
                    PumpStage::Ended(TunnelPumpOutcome::OriginIo)
                } else {
                    PumpStage::ClientWriting(count)
                },
                TunnelRead::Failed(kind) => if tls::retryable(kind) {
                    PumpStage::ClientTurn
                } else {
                    PumpStage::Ended(TunnelPumpOutcome::OriginIo)
                },
            },
            (PumpStage::ClientWriting(_), PumpEvent::ClientWritten(ok)) => if ok {
                PumpStage::ClientTurn
            } else {
                PumpStage::Ended(TunnelPumpOutcome::ClientIo)
            },
            _ => PumpStage::Ended(TunnelPumpOutcome::OriginIo),
        };
        self.stage = next;
    }
}

/// Bytes that were read are passed on before anything else is read, and no turn
/// begins once the work is cancelled.
pub proof fn pumps_pass_on_what_they_read(s: PumpStage, event: PumpEvent, n: usize)
    ensures
        0 < n <= TUNNEL_COPY_BUFFER_BYTES ==> pump_step(
            PumpStage::ClientReading,
            PumpEvent::ClientRead { read: TunnelRead::Bytes(n), deadline_cleared: true },
        ) == PumpStage::OriginWriting(n),
        0 < n <= TUNNEL_COPY_BUFFER_BYTES ==> pump_step(
            PumpStage::OriginReading,
            PumpEvent::OriginRead(TunnelRead::Bytes(n)),
        ) == PumpStage::ClientWriting(n),
        pump_step(s, event) == PumpStage::ClientReading ==> s == PumpStage::ClientTurn && event
            == (PumpEvent::ClientReady { cancelled: false, deadline_set: true }),
        pump_step(s, event) == PumpStage::OriginReading ==> s == PumpStage::OriginTurn && event
            == (PumpEvent::OriginReady { cancelled: false }),
{
}

// ---------------------------------------------------------------------
// CONNECT tunnels
// ---------------------------------------------------------------------

/// One of the two directions of a CONNECT tunnel.
#[derive(Clone, Copy, Debug, PartialEq, Eq, Structural)]
pub enum Direction {
    Upload,
    Download,
}

impl Direction {
    /// The outcome when the side that is read fails.
    pub open spec fn read_failure(self) -> TunnelPumpOutcome {
        match self {
            Direction::Upload => TunnelPumpOutcome::ClientIo,
            Direction::Download => TunnelPumpOutcome::OriginIo,
        }
    }

    /// The outcome when the side that is written fails.
    pub open spec fn write_failure(self) -> TunnelPumpOutcome {
        match self {
            Direction::Upload => TunnelPumpOutcome::OriginIo,
            Direction::Download => TunnelPumpOutcome::ClientIo,
        }
    }
}

#[derive(Clone, Copy, Debug, PartialEq, Eq, Structural)]
pub enum HalfStage {
    Idle,
    Reading,
    Writing(usize),
    /// This direction ended the tunnel.
    Ended(TunnelPumpOutcome),
    /// The other direction ended the tunnel first.
    Stopped,
}

#[derive(Clone, Copy, Debug, PartialEq, Eq, Structural)]
pub enum HalfEvent {
    Ready { cancelled: bool, ended: bool },
    Read { read: TunnelRead, cancelled: bool },
    Written { ok: bool, cancelled: bool },
}

pub open spec fn unless_cancelled(cancelled: bool, outcome: TunnelPumpOutcome) -> HalfStage {
    HalfStage::Ended(
        if cancelled {
            TunnelPumpOutcome::Cancelled
        } else {
            outcome
        },
    )
}

pub open spec fn half_step(d: Direction, s: HalfStage, event: HalfEvent) -> HalfStage {
    match (s, event) {
        (HalfStage::Ended(_), _) | (HalfStage::Stopped, _) => s,
        (HalfStage::Idle, HalfEvent::Ready { cancelled, ended }) => if cancelled {
            HalfStage::Ended(TunnelPumpOutcome::Cancelled)
        } else if ended {
            HalfStage::Stopped
        } else {
            HalfStage::Reading
        },
        (HalfStage::Reading, HalfEvent::Read { read, cancelled }) => match read {
            TunnelRead::Bytes(count) => if count == 0 {
                HalfStage::Ended(TunnelPumpOutcome::Completed)
            } else if count > TUNNEL_COPY_BUFFER_BYTES {
                HalfStage::Ended(d.read_failure())
            } else {
                HalfStage::Writing(count)
            },
            TunnelRead::Failed(kind) => if tls::is_retryable(kind) {
                HalfStage::Idle
            } else {
                unless_cancelled(cancelled, d.read_failure())
            },
        },
        (HalfStage::Writing(_), HalfEvent::Written { ok, cancelled }) => if ok {
            HalfStage::Idle
        } else {
            unless_cancelled(cancelled, d.write_failure())
        },
        _ => HalfStage::Ended(TunnelPumpOutcome::OriginIo),
    }
}

/// The pump of one direction of a CONNECT tunnel.
#[derive(Clone, Copy, Debug, PartialEq, Eq, Structural)]
pub struct HalfPump {
    pub direction: Direction,
    pub stage: HalfStage,
}

fn ended(cancelled: bool, outcome: TunnelPumpOutcome) -> (r: HalfStage)
    ensures
        r == unless_cancelled(cancelled, outcome),
{
    if cancelled {
        HalfStage::Ended(TunnelPumpOutcome::Cancelled)
    } else {
        HalfStage::Ended(outcome)
    }
}

impl HalfPump {
    pub fn new(direction: Direction) -> (r: Self)
        ensures
            r == (HalfPump { direction, stage: HalfStage::Idle }),
    {
        HalfPump { direction, stage: HalfStage::Idle }
    }

    pub fn step(&mut self, event: HalfEvent)
        ensures
            final(self).stage == half_step(old(self).direction, old(self).stage, event),
            final(self).direction == old(self).direction,
    {
        let (read_failure, write_failure) = match self.direction {
            Direction::Upload => (TunnelPumpOutcome::ClientIo, TunnelPumpOutcome::OriginIo),
            Direction::Download => (TunnelPumpOutcome::OriginIo, TunnelPumpOutcome::ClientIo),
        };
        let next = match (self.stage, event) {
            (HalfStage::Ended(o), _) => HalfStage::Ended(o),
            (HalfStage::Stopped, _) => HalfStage::Stopped,
            (HalfStage::Idle, HalfEvent::Ready { cancelled, ended }) => if cancelled {
                HalfStage::Ended(TunnelPumpOutcome::Cancelled)
            } else if ended {
                HalfStage::Stopped
            } else {
                HalfStage::Reading
            },
            (HalfStage::Reading, HalfEvent::Read { read, cancelled }) => match read {
                TunnelRead::Bytes(count) => if count == 0 {
                    HalfStage::Ended(TunnelPumpOutcome::Completed)
                } else if count > TUNNEL_COPY_BUFFER_BYTES {
                    HalfStage::Ended(read_failure)
                } else {
                    HalfStage::Writing(count)
                },
                TunnelRead::Failed(kind) => if tls::retryable(kind) {
                    HalfStage::Idle
                } else {
                    ended(cancelled, read_failure)
                },
            },
            (HalfStage::Writing(_), HalfEvent::Written { ok, cancelled }) => if ok {
                HalfStage::Idle
            } else {
                ended(cancelled, write_failure)
            },
            _ => HalfStage::Ended(TunnelPumpOutcome::OriginIo),
        };
        self.stage = next;
    }
}

pub open spec fn outcome_code_of(outcome: TunnelPumpOutcome) -> u8 {
    match outcome {
        TunnelPumpOutcome::Completed => 1,
        TunnelPumpOutcome::ClientIo => 2,
        TunnelPumpOutcome::OriginIo => 3,
        TunnelPumpOutcome::Cancelled => 4,
    }
}

/// A number for each outcome; zero is none of them.
pub fn connect_outcome_code(outcome: TunnelPumpOutcome) -> (r: u8)
    ensures
        r == outcome_code_of(outcome),
        r != 0,
{
    match outcome {
        TunnelPumpOutcome::Completed => 1,
        TunnelPumpOutcome::ClientIo => 2,
        TunnelPumpOutcome::OriginIo => 3,
        TunnelPumpOutcome::Cancelled => 4,
    }
}

pub open spec fn outcome_of_code(code: u8) -> TunnelPumpOutcome {
    if code == 1 {
        TunnelPumpOutcome::Completed
    } else if code == 2 {
        TunnelPumpOutcome::ClientIo
    } else if code == 4 {
        TunnelPumpOutcome::Cancelled
    } else {
        TunnelPumpOutcome::OriginIo
    }
}

/// The outcome that a number stands for.
pub fn connect_outcome(code: u8) -> (r: TunnelPumpOutcome)
    ensures
        r == outcome_of_code(code),
{
    match code {
        1 => TunnelPumpOutcome::Completed,
        2 => TunnelPumpOutcome::ClientIo,
        3 => TunnelPumpOutcome::OriginIo,
        4 => TunnelPumpOutcome::Cancelled,
        _ => TunnelPumpOutcome::OriginIo,
    }
}

pub open spec fn recorded(first: u8, outcome: TunnelPumpOutcome) -> u8 {
    if first == 0 {
        outcome_code_of(outcome)
    } else {
        first
    }
}

/// The number that stays when both directions record one: the first.
pub fn record_connect_outcome(first: u8, outcome: TunnelPumpOutcome) -> (r: u8)
    ensures
        r == recorded(first, outcome),
{
    if first == 0 {
        connect_outcome_code(outcome)
    } else {
        first
    }
}

/// The first outcome that is recorded is the one that is read back, whatever is
/// recorded after it.
pub proof fn first_outcomes_stay(first: TunnelPumpOutcome, later: TunnelPumpOutcome)
    ensures
        outcome_of_code(recorded(0, first)) == first,
        outcome_of_code(recorded(recorded(0, first), later)) == first,
{
}

/// What the parts of a CONNECT tunnel came to before bytes flow.
#[derive(Clone, Copy, Debug, PartialEq, Eq, Structural)]
pub struct TunnelSetup {
    /// The client's socket could be shared and bounded.
    pub client: bool,
    /// The upload has a worker.
    pub worker: bool,
}

/// The outcome of a tunnel whose parts are not all there.
pub fn tunnel_setup(setup: TunnelSetup) -> (r: Option<TunnelPumpOutcome>)
    ensures
        r == (if !setup.client {
            Some(TunnelPumpOutcome::ClientIo)
        } else if !setup.worker {
            Some(TunnelPumpOutcome::OriginIo)
        } else {
            None
        }),
{
    if !setup.client {
        Some(TunnelPumpOutcome::ClientIo)
    } else if !setup.worker {
        Some(TunnelPumpOutcome::OriginIo)
    } else {
        None
    }
}

/// A copy reads at most sixteen kibibytes at a time and never more than is left, writes on
/// what it reads, and is finished once nothing is left, cancelled or not. A reader that
/// gives nothing, or too much, is at fault; a cancelled copy and a failed write are not the
/// reader's.
pub proof fn copies_go_on_to_the_end(remaining: u64, limit: usize, count: usize, cancelled: bool)
    ensures
        ({
            let at = |stage: CopyStage| ExactCopy { remaining, stage };
            let next = copy_step(at(CopyStage::Idle), CopyEvent::Next { cancelled });
            &&& next.remaining == remaining
            &&& remaining == 0 ==> next.stage == CopyStage::Finished
            &&& remaining > 0 && cancelled ==> next.stage == CopyStage::Failed(
                WriteBackendError::Io,
            )
            &&& remaining > 0 && !cancelled ==> {
                &&& next.stage matches CopyStage::Reading(most)
                &&& 0 < most <= 16384 && most <= remaining
                &&& most == 16384 || most == remaining
            }
            &&& copy_step(at(CopyStage::Reading(limit)), CopyEvent::Read(Some(count))) == at(
                if 0 < count <= limit && count <= remaining {
                    CopyStage::Writing(count)
                } else {
                    CopyStage::Failed(WriteBackendError::InvalidAfterHead)
                },
            )
            &&& copy_step(at(CopyStage::Reading(limit)), CopyEvent::Read(None)) == at(
                CopyStage::Failed(WriteBackendError::InvalidAfterHead),
            )
            &&& count <= remaining ==> copy_step(
                at(CopyStage::Writing(count)),
                CopyEvent::Written(true),
            ) == (ExactCopy { remaining: (remaining - count) as u64, stage: CopyStage::Idle })
            &&& copy_step(at(CopyStage::Writing(count)), CopyEvent::Written(false)) == at(
                CopyStage::Failed(WriteBackendError::Io),
            )
        }),
{
}

/// A tunnel that goes on takes turns: what one side sends is written to the other, and a
/// side that is only slow gives up its turn. It is completed where a side is at its end,
/// and otherwise ends with who failed, or as cancelled.
pub proof fn tunnels_take_turns(n: usize, kind: IoKind, ok: bool)
    ensures
        ({
            let slow = kind is Interrupted || kind is TimedOut || kind is WouldBlock;
            let ended = |outcome: TunnelPumpOutcome| PumpStage::Ended(outcome);
            let client = |read: TunnelRead|
                pump_step(
                    PumpStage::ClientReading,
                    PumpEvent::ClientRead { read, deadline_cleared: true },
                );
            let origin = |read: TunnelRead|
                pump_step(PumpStage::OriginReading, PumpEvent::OriginRead(read));
            &&& pump_step(
                PumpStage::ClientTurn,
                PumpEvent::ClientReady { cancelled: false, deadline_set: true },
            ) == PumpStage::ClientReading
            &&& pump_step(
                PumpStage::ClientTurn,
                PumpEvent::ClientReady { cancelled: false, deadline_set: false },
            ) == ended(TunnelPumpOutcome::ClientIo)
            &&& pump_step(
                PumpStage::ClientTurn,
                PumpEvent::ClientReady { cancelled: true, deadline_set: ok },
            ) == ended(TunnelPumpOutcome::Cancelled)
            &&& pump_step(PumpStage::OriginTurn, PumpEvent::OriginReady { cancelled: false })
                == PumpStage::OriginReading
            &&& pump_step(PumpStage::OriginTurn, PumpEvent::OriginReady { cancelled: true })
                == ended(TunnelPumpOutcome::Cancelled)
            &&& client(TunnelRead::Bytes(0)) == ended(TunnelPumpOutcome::Completed)
            &&& origin(TunnelRead::Bytes(0)) == ended(TunnelPumpOutcome::Completed)
            &&& 0 < n <= 16384 ==> client(TunnelRead::Bytes(n)) == PumpStage::OriginWriting(n)
            &&& 0 < n <= 16384 ==> origin(TunnelRead::Bytes(n)) == PumpStage::ClientWriting(n)
            &&& n > 16384 ==> client(TunnelRead::Bytes(n)) == ended(TunnelPumpOutcome::ClientIo)
            &&& n > 16384 ==> origin(TunnelRead::Bytes(n)) == ended(TunnelPumpOutcome::OriginIo)
            &&& client(TunnelRead::Failed(kind)) == if slow {
                PumpStage::OriginTurn
            } else {
                ended(TunnelPumpOutcome::ClientIo)
            }
            &&& origin(TunnelRead::Failed(kind)) == if slow {
                PumpStage::ClientTurn
            } else {
                ended(TunnelPumpOutcome::OriginIo)
            }
            &&& pump_step(
                PumpStage::ClientReading,
                PumpEvent::ClientRead { read: TunnelRead::Bytes(n), deadline_cleared: false },
            ) == ended(TunnelPumpOutcome::ClientIo)
            &&& pump_step(PumpStage::OriginWriting(n), PumpEvent::OriginWritten(ok)) == if ok {
                PumpStage::OriginTurn
            } else {
                ended(TunnelPumpOutcome::OriginIo)
            }
            &&& pump_step(PumpStage::ClientWriting(n), PumpEvent::ClientWritten(ok)) == if ok {
                PumpStage::ClientTurn
            } else {
                ended(TunnelPumpOutcome::ClientIo)
            }
        }),
{
}

/// A direction of a tunnel reads and writes on until its source is at its end, which
/// completes the tunnel. A failure is that of the side that failed, unless the tunnel was
/// cancelled; a direction that finds the tunnel ended stops without a word.
pub proof fn directions_go_on_to_the_end(
    d: Direction,
    n: usize,
    kind: IoKind,
    cancelled: bool,
    ended: bool,
)
    ensures
        ({
            let slow = kind is Interrupted || kind is TimedOut || kind is WouldBlock;
            let read = |r: TunnelRead|
                half_step(d, HalfStage::Reading, HalfEvent::Read { read: r, cancelled });
            let (from, to) = match d {
                Direction::Upload => (TunnelPumpOutcome::ClientIo, TunnelPumpOutcome::OriginIo),
                Direction::Download => (TunnelPumpOutcome::OriginIo, TunnelPumpOutcome::ClientIo),
            };
            &&& half_step(d, HalfStage::Idle, HalfEvent::Ready { cancelled, ended }) == if cancelled {
                HalfStage::Ended(TunnelPumpOutcome::Cancelled)
            } else if ended {
                HalfStage::Stopped
            } else {
                HalfStage::Reading
            }
            &&& read(TunnelRead::Bytes(0)) == HalfStage::Ended(TunnelPumpOutcome::Completed)
            &&& 0 < n <= 16384 ==> read(TunnelRead::Bytes(n)) == HalfStage::Writing(n)
            &&& n > 16384 ==> read(TunnelRead::Bytes(n)) == HalfStage::Ended(from)
            &&& slow ==> read(TunnelRead::Failed(kind)) == HalfStage::Idle
            &&& !slow ==> read(TunnelRead::Failed(kind)) == HalfStage::Ended(
                if cancelled {
                    TunnelPumpOutcome::Cancelled
                } else {
                    from
                },
            )
            &&& half_step(d, HalfStage::Writing(n), HalfEvent::Written { ok: true, cancelled })
                == HalfStage::Idle
            &&& half_step(d, HalfStage::Writing(n), HalfEvent::Written { ok: false, cancelled })
                == HalfStage::Ended(
                if cancelled {
                    TunnelPumpOutcome::Cancelled
                } else {
                    to
                },
            )
        }),
{
}

/// How a tunnel ended has its number.
pub proof fn outcomes_have_their_numbers(outcome: TunnelPumpOutcome)
    ensures
        outcome_code_of(outcome) == (match outcome {
            TunnelPumpOutcome::Completed => 1u8,
            TunnelPumpOutcome::Cancelled => 4,
            TunnelPumpOutcome::ClientIo => 2,
            TunnelPumpOutcome::OriginIo => 3,
        }),
{
}

/// A tunnel that cannot be set up ends before it begins, for the client first.
pub proof fn tunnels_need_both_sides(setup: TunnelSetup, r: Option<TunnelPumpOutcome>)
    requires
        call_ensures(tunnel_setup, (setup,), r),
    ensures
        r is None <==> setup.client && setup.worker,
        !setup.client ==> r == Some(TunnelPumpOutcome::ClientIo),
        setup.client && !setup.worker ==> r == Some(TunnelPumpOutcome::OriginIo),
{
}

} // verus!

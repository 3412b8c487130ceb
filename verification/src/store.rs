//! How peers are kept in a table, row by row.

use crate::addr;
use crate::notation;
use crate::packet::Height;
use crate::peers;
use crate::peers::{PeerManager, PeerState};
use crate::text;
use crate::wire::P2pError;
use vstd::prelude::*;

verus! {

/// Why the value of a column is not what the column is for.
#[derive(Clone, Copy, Debug, PartialEq, Eq, Structural)]
pub enum ValueFault {
    /// A text is no socket address.
    Address,
    /// A text that should be a number is empty.
    NoDigits,
    InvalidDigit,
    NumberTooLarge,
    /// A number does not fit.
    OutOfRange,
}

/// What is wrong with a row.
#[derive(Clone, Copy, Debug, PartialEq, Eq, Structural)]
pub struct StorageFault {
    pub column: u64,
    pub fault: ValueFault,
}

pub open spec fn value_fault_text(fault: ValueFault) -> Seq<char> {
    match fault {
        ValueFault::Address => "invalid socket address syntax"@,
        ValueFault::NoDigits => "cannot parse integer from empty string"@,
        ValueFault::InvalidDigit => "invalid digit found in string"@,
        ValueFault::NumberTooLarge => "number too large to fit in target type"@,
        ValueFault::OutOfRange => "out of range integral type conversion attempted"@,
    }
}

/// The type of the column that the fault is found in.
pub open spec fn column_type(fault: ValueFault) -> Seq<char> {
    if fault == ValueFault::OutOfRange {
        "Integer"@
    } else {
        "Text"@
    }
}

pub open spec fn storage_fault_text(f: StorageFault) -> Seq<char> {
    "Conversion error from type "@ + column_type(f.fault) + " at index: "@ + text::decimal(
        f.column as nat,
    ) + ", "@ + value_fault_text(f.fault)
}

impl StorageFault {
    /// What went wrong, in words.
    pub fn message(&self) -> (r: String)
        ensures
            r@ == storage_fault_text(*self),
    {
        let kind = if self.fault == ValueFault::OutOfRange {
            "Integer"
        } else {
            "Text"
        };
        let fault = match self.fault {
            ValueFault::Address => "invalid socket address syntax",
            ValueFault::NoDigits => "cannot parse integer from empty string",
            ValueFault::InvalidDigit => "invalid digit found in string",
            ValueFault::NumberTooLarge => "number too large to fit in target type",
            ValueFault::OutOfRange => "out of range integral type conversion attempted",
        };
        let index = text::decimal_text(self.column);
        let mut out: Vec<char> = Vec::new();
        text::push_str(&mut out, "Conversion error from type ");
        text::push_str(&mut out, kind);
        text::push_str(&mut out, " at index: ");
        text::push_str(&mut out, index.as_str());
        text::push_str(&mut out, ", ");
        text::push_str(&mut out, fault);
        assert(out@ =~= storage_fault_text(*self));
        text::from_chars(out.as_slice())
    }
}

/// One row of the table of peers.
#[derive(Clone, Debug, PartialEq, Eq)]
pub struct StoredPeer {
    pub address: String,
    pub score: i32,
    pub last_height: i64,
    pub last_height_observed_at: Option<String>,
    pub last_connected_at: Option<String>,
    pub banned_until: Option<String>,
    pub successes: i64,
    pub failures: i64,
}

#[verifier::ext_equal]
pub struct RowView {
    pub address: Seq<char>,
    pub score: i32,
    pub last_height: i64,
    pub last_height_observed_at: Option<Seq<char>>,
    pub last_connected_at: Option<Seq<char>>,
    pub banned_until: Option<Seq<char>>,
    pub successes: i64,
    pub failures: i64,
}

pub open spec fn optional_view(t: Option<String>) -> Option<Seq<char>> {
    match t {
        Some(s) => Some(s@),
        None => None,
    }
}

impl View for StoredPeer {
    type V = RowView;

    open spec fn view(&self) -> RowView {
        RowView {
            address: self.address@,
            score: self.score,
            last_height: self.last_height,
            last_height_observed_at: optional_view(self.last_height_observed_at),
            last_connected_at: optional_view(self.last_connected_at),
            banned_until: optional_view(self.banned_until),
            successes: self.successes,
            failures: self.failures,
        }
    }
}

// ---------------------------------------------------------------------
// Numbers
// ---------------------------------------------------------------------

pub open spec fn optional_text(n: Option<u64>) -> Option<Seq<char>> {
    match n {
        Some(v) => Some(text::decimal(v as nat)),
        None => None,
    }
}

/// What follows a plus sign that may stand in front.
pub open spec fn unsigned(s: Seq<char>) -> Seq<char> {
    if s.len() > 0 && s[0] == '+' {
        s.skip(1)
    } else {
        s
    }
}

/// The number that a text denotes; a plus sign may stand in front.
pub open spec fn u64_of(s: Seq<char>) -> Option<u64> {
    let d = unsigned(s);
    if d.len() > 0 && text::all_digits(d) && text::number(d, 10) <= u64::MAX {
        Some(text::number(d, 10) as u64)
    } else {
        None
    }
}

/// How many digits a text starts with.
pub open spec fn leading_digits(s: Seq<char>) -> int
    decreases s.len(),
{
    if s.len() == 0 || !text::is_digit(s[0]) {
        0
    } else {
        1 + leading_digits(s.drop_first())
    }
}

/// Why a text denotes no number: the digits that it starts with make too large a number
/// already, or something else than a digit is in its way.
pub open spec fn number_fault(s: Seq<char>) -> ValueFault {
    let d = unsigned(s);
    if s.len() == 0 {
        ValueFault::NoDigits
    } else if text::number(d.take(leading_digits(d)), 10) > u64::MAX {
        ValueFault::NumberTooLarge
    } else {
        ValueFault::InvalidDigit
    }
}

pub open spec fn optional_u64_of(s: Option<Seq<char>>, column: u64) -> Result<
    Option<u64>,
    StorageFault,
> {
    match s {
        None => Ok(None),
        Some(t) => match u64_of(t) {
            Some(n) => Ok(Some(n)),
            None => Err(StorageFault { column, fault: number_fault(t) }),
        },
    }
}

pub open spec fn u32_of(n: i64, column: u64) -> Result<u32, StorageFault> {
    if 0 <= n <= u32::MAX {
        Ok(n as u32)
    } else {
        Err(StorageFault { column, fault: ValueFault::OutOfRange })
    }
}

pub fn optional_u64_to_text(value: Option<u64>) -> (r: Option<String>)
    ensures
        optional_view(r) == optional_text(value),
{
    match value {
        Some(v) => Some(text::decimal_text(v)),
        None => None,
    }
}

/// The characters after a plus sign that may stand in front.
fn unsigned_chars(s: &str) -> (r: Vec<char>)
    ensures
        r@ == unsigned(s@),
{
    let chars = text::to_chars(s);
    let n: usize = chars.len();
    if n > 0 && chars[0] == '+' {
        let d = text::chars_between(chars.as_slice(), 1, n);
        assert(d@ == chars@.skip(1));
        d
    } else {
        chars
    }
}

/// The number that a text denotes.
pub fn parse_u64(s: &str) -> (r: Option<u64>)
    ensures
        r == u64_of(s@),
{
    let digits = unsigned_chars(s);
    if digits.len() == 0 || !text::are_digits(digits.as_slice()) {
        return None;
    }
    text::parse_number(digits.as_slice(), 10)
}

proof fn lemma_leading_digits(s: Seq<char>, k: int)
    requires
        0 <= k <= s.len(),
        forall|i: int| 0 <= i < k ==> text::is_digit(#[trigger] s[i]),
        k < s.len() ==> !text::is_digit(s[k]),
    ensures
        leading_digits(s) == k,
    decreases s.len(),
{
    if k > 0 {
        let rest = s.drop_first();
        assert forall|i: int| 0 <= i < k - 1 implies text::is_digit(#[trigger] rest[i]) by {
            assert(rest[i] == s[i + 1]);
        }
        assert(text::is_digit(s[0]));
        lemma_leading_digits(rest, k - 1);
    }
}

/// Why a text denotes no number.
fn explain_number(s: &str) -> (r: ValueFault)
    ensures
        r == number_fault(s@),
{
    if text::to_chars(s).len() == 0 {
        return ValueFault::NoDigits;
    }
    let digits = unsigned_chars(s);
    let mut k: usize = 0;
    while k < digits.len() && text::char_is_digit(digits[k])
        invariant
            k <= digits@.len(),
            forall|i: int| 0 <= i < k ==> text::is_digit(#[trigger] digits@[i]),
        decreases digits@.len() - k,
    {
        k += 1;
    }
    let front = text::chars_between(digits.as_slice(), 0, k);
    proof {
        lemma_leading_digits(digits@, k as int);
        assert(front@ == digits@.take(k as int));
    }
    match text::parse_number(front.as_slice(), 10) {
        None => ValueFault::NumberTooLarge,
        Some(_) => ValueFault::InvalidDigit,
    }
}

pub fn optional_u64_from_text(value: Option<&str>, column: u64) -> (r: Result<
    Option<u64>,
    StorageFault,
>)
    ensures
        r == optional_u64_of(
            match value {
                Some(s) => Some(s@),
                None => None,
            },
            column,
        ),
{
    match value {
        None => Ok(None),
        Some(s) => match parse_u64(s) {
            Some(n) => Ok(Some(n)),
            None => Err(StorageFault { column, fault: explain_number(s) }),
        },
    }
}

pub fn u32_from_i64(value: i64, column: u64) -> (r: Result<u32, StorageFault>)
    ensures
        r == u32_of(value, column),
{
    if value < 0 || value > 0xffff_ffff {
        return Err(StorageFault { column, fault: ValueFault::OutOfRange });
    }
    Ok(value as u32)
}

/// How many rows a table has, by the count that the database gives.
pub fn usize_from_i64(value: i64, column: u64) -> (r: Result<usize, StorageFault>)
    ensures
        match r {
            Ok(n) => n == value,
            Err(e) => e == (StorageFault { column, fault: ValueFault::OutOfRange }) && (value < 0
                || value > usize::MAX),
        },
{
    if value < 0 {
        return Err(StorageFault { column, fault: ValueFault::OutOfRange });
    }
    let n: u64 = value as u64;
    if n > usize::MAX as u64 {
        return Err(StorageFault { column, fault: ValueFault::OutOfRange });
    }
    Ok(n as usize)
}

/// The generation that the peers belong to: zero where none was written.
pub open spec fn generation_of(value: Option<Seq<char>>) -> Option<u64> {
    match value {
        None => Some(0),
        Some(s) => u64_of(s),
    }
}

/// Whether an error is this report of the store.
pub open spec fn reports(e: P2pError, report: Seq<char>) -> bool {
    e matches P2pError::Storage(s) && s@ == report
}

pub fn sync_generation(value: Option<&str>) -> (r: Result<u64, P2pError>)
    ensures
        match (
            r,
            generation_of(
                match value {
                    Some(s) => Some(s@),
                    None => None,
                },
            ),
        ) {
            (Ok(n), Some(m)) => n == m,
            (Err(e), None) => reports(e, "peer sync generation is not a valid u64"@),
            _ => false,
        },
{
    match value {
        None => Ok(0),
        Some(s) => match parse_u64(s) {
            Some(n) => Ok(n),
            None => Err(P2pError::Storage("peer sync generation is not a valid u64".to_owned())),
        },
    }
}

// ---------------------------------------------------------------------
// Rows
// ---------------------------------------------------------------------

/// The row of a peer.
pub open spec fn row_of(p: PeerState) -> RowView {
    RowView {
        address: addr::socket_text(p.address),
        score: p.score,
        last_height: p.last_height.0 as i64,
        last_height_observed_at: optional_text(p.last_height_observed_at),
        last_connected_at: optional_text(p.last_connected_at),
        banned_until: optional_text(p.banned_until),
        successes: p.successes as i64,
        failures: p.failures as i64,
    }
}

/// A ban without an end is none.
pub open spec fn lifted(until: Option<u64>) -> Option<u64> {
    if until == Some(u64::MAX) {
        None
    } else {
        until
    }
}

/// The peer that a row is of, or the first thing that is wrong with the row.
pub open spec fn peer_of(row: RowView) -> Result<PeerState, StorageFault> {
    match optional_u64_of(row.banned_until, 5) {
        Err(e) => Err(e),
        Ok(until) => match notation::socket_of(row.address) {
            None => Err(StorageFault { column: 0, fault: ValueFault::Address }),
            Some(address) => match (
                u32_of(row.last_height, 2),
                optional_u64_of(row.last_height_observed_at, 3),
                optional_u64_of(row.last_connected_at, 4),
                u32_of(row.successes, 6),
                u32_of(row.failures, 7),
            ) {
                (Ok(height), Ok(observed), Ok(connected), Ok(successes), Ok(failures)) => Ok(
                    PeerState {
                        address,
                        score: row.score,
                        last_height: Height(height),
                        last_height_observed_at: observed,
                        last_connected_at: connected,
                        banned_until: lifted(until),
                        successes,
                        failures,
                    },
                ),
                (Err(e), _, _, _, _) => Err(e),
                (_, Err(e), _, _, _) => Err(e),
                (_, _, Err(e), _, _) => Err(e),
                (_, _, _, Err(e), _) => Err(e),
                (_, _, _, _, Err(e)) => Err(e),
            },
        },
    }
}

impl StoredPeer {
    pub fn of(peer: &PeerState) -> (r: Self)
        ensures
            r@ == row_of(*peer),
    {
        let address = peer.address.to_chars();
        StoredPeer {
            address: text::from_chars(address.as_slice()),
            score: peer.score,
            last_height: peer.last_height.0 as i64,
            last_height_observed_at: optional_u64_to_text(peer.last_height_observed_at),
            last_connected_at: optional_u64_to_text(peer.last_connected_at),
            banned_until: optional_u64_to_text(peer.banned_until),
            successes: peer.successes as i64,
            failures: peer.failures as i64,
        }
    }
}

fn optional_str(t: &Option<String>) -> (r: Option<&str>)
    ensures
        match r {
            Some(s) => optional_view(*t) == Some(s@),
            None => optional_view(*t) is None,
        },
{
    match t {
        Some(s) => Some(s.as_str()),
        None => None,
    }
}

pub fn row_to_peer_state(row: &StoredPeer) -> (r: Result<PeerState, StorageFault>)
    ensures
        r == peer_of(row@),
{
    let until = match optional_u64_from_text(optional_str(&row.banned_until), 5) {
        Ok(v) => match v {
            Some(n) => if n == u64::MAX {
                None
            } else {
                Some(n)
            },
            None => None,
        },
        Err(e) => {
            return Err(e);
        },
    };
    let chars = text::to_chars(row.address.as_str());
    let address = match notation::parse_socket(chars.as_slice()) {
        Some(a) => a,
        None => {
            return Err(StorageFault { column: 0, fault: ValueFault::Address });
        },
    };
    let height: u32 = match u32_from_i64(row.last_height, 2) {
        Ok(n) => n,
        Err(e) => {
            return Err(e);
        },
    };
    let observed = match optional_u64_from_text(optional_str(&row.last_height_observed_at), 3) {
        Ok(v) => v,
        Err(e) => {
            return Err(e);
        },
    };
    let connected = match optional_u64_from_text(optional_str(&row.last_connected_at), 4) {
        Ok(v) => v,
        Err(e) => {
            return Err(e);
        },
    };
    let successes: u32 = match u32_from_i64(row.successes, 6) {
        Ok(n) => n,
        Err(e) => {
            return Err(e);
        },
    };
    let failures: u32 = match u32_from_i64(row.failures, 7) {
        Ok(n) => n,
        Err(e) => {
            return Err(e);
        },
    };
    Ok(
        PeerState {
            address,
            score: row.score,
            last_height: Height(height),
            last_height_observed_at: observed,
            last_connected_at: connected,
            banned_until: until,
            successes,
            failures,
        },
    )
}

// ---------------------------------------------------------------------
// Tables
// ---------------------------------------------------------------------

pub open spec fn row_views(rows: Seq<StoredPeer>) -> Seq<RowView> {
    rows.map_values(|r: StoredPeer| r@)
}

/// The peers of some rows, or what is wrong with the first bad row.
pub open spec fn peers_of(rows: Seq<RowView>) -> Result<Seq<PeerState>, StorageFault>
    decreases rows.len(),
{
    if rows.len() == 0 {
        Ok(Seq::empty())
    } else {
        match peers_of(rows.drop_last()) {
            Err(e) => Err(e),
            Ok(before) => match peer_of(rows.last()) {
                Err(e) => Err(e),
                Ok(p) => Ok(before.push(p)),
            },
        }
    }
}

/// The rows of all known peers.
pub fn stored_manager(manager: &PeerManager) -> (r: Vec<StoredPeer>)
    requires
        manager.wf(),
    ensures
        r@.len() == manager@.len(),
        exists|states: Seq<PeerState>| #[trigger]
            peers::addresses_differ(states) && peers::by_address(states) == manager@ && row_views(
                r@,
            ) == states.map_values(|p: PeerState| row_of(p)),
{
    let all = manager.iter();
    let mut out: Vec<StoredPeer> = Vec::new();
    let mut i: usize = 0;
    while i < all.len()
        invariant
            i <= all@.len(),
            out@.len() == i,
            forall|j: int| 0 <= j < i ==> (#[trigger] out@[j])@ == row_of(all@[j]),
        decreases all@.len() - i,
    {
        out.push(StoredPeer::of(&all[i]));
        i += 1;
    }
    proof {
        peers::lemma_by_address(all@);
        assert(row_views(out@) =~= all@.map_values(|p: PeerState| row_of(p)));
    }
    out
}

pub fn load_manager(rows: &[StoredPeer]) -> (r: Result<PeerManager, P2pError>)
    ensures
        match (r, peers_of(row_views(rows@))) {
            (Ok(m), Ok(states)) => m.wf() && m@ == peers::by_address(states),
            (Err(e), Err(f)) => reports(e, storage_fault_text(f)),
            _ => false,
        },
{
    let ghost all = row_views(rows@);
    let mut states: Vec<PeerState> = Vec::new();
    let mut i: usize = 0;
    assert(all.take(0) == Seq::<RowView>::empty());
    while i < rows.len()
        invariant
            i <= rows@.len(),
            all == row_views(rows@),
            peers_of(all.take(i as int)) == Ok::<Seq<PeerState>, StorageFault>(states@),
        decreases rows@.len() - i,
    {
        proof {
            assert(all.take(i as int + 1).drop_last() == all.take(i as int));
            assert(all[i as int] == rows@[i as int]@);
        }
        match row_to_peer_state(&rows[i]) {
            Ok(p) => {
                states.push(p);
            },
            Err(e) => {
                proof {
                    lemma_bad_row(all, i as int + 1);
                }
                return Err(P2pError::Storage(e.message()));
            },
        }
        i += 1;
    }
    assert(all.take(i as int) == all);
    Ok(PeerManager::from_states(states))
}

proof fn lemma_bad_row(rows: Seq<RowView>, n: int)
    requires
        0 <= n <= rows.len(),
        peers_of(rows.take(n)) is Err,
    ensures
        peers_of(rows) == peers_of(rows.take(n)),
    decreases rows.len() - n,
{
    if n < rows.len() {
        assert(rows.take(n + 1).drop_last() == rows.take(n));
        lemma_bad_row(rows, n + 1);
    } else {
        assert(rows.take(n) == rows);
    }
}

// ---------------------------------------------------------------------
// Laws
// ---------------------------------------------------------------------

proof fn lemma_number(n: u64)
    ensures
        u64_of(text::decimal(n as nat)) == Some(n),
{
    text::digits_denote_their_number(n as nat, 10);
    let s = text::decimal(n as nat);
    assert(text::is_digit(s[0]));
}

proof fn lemma_optional(n: Option<u64>, column: u64)
    ensures
        optional_u64_of(optional_text(n), column) == Ok::<Option<u64>, StorageFault>(n),
{
    match n {
        Some(v) => {
            lemma_number(v);
        },
        None => {},
    }
}

/// A peer whose address has no flow information is read back from its row as it was,
/// but for a ban without an end, which is lifted.
pub proof fn stored_peers_are_read_back(p: PeerState)
    requires
        notation::is_writable(p.address),
    ensures
        peer_of(row_of(p)) == Ok::<PeerState, StorageFault>(
            PeerState { banned_until: lifted(p.banned_until), ..p },
        ),
{
    notation::socket_addresses_are_read_back(p.address);
    lemma_optional(p.last_height_observed_at, 3);
    lemma_optional(p.last_connected_at, 4);
    lemma_optional(p.banned_until, 5);
}

/// A generation is read back as it was written.
pub proof fn stored_generations_are_read_back(n: u64)
    ensures
        generation_of(Some(text::decimal(n as nat))) == Some(n),
        generation_of(None) == Some(0u64),
{
    lemma_number(n);
}

/// All peers are read back as they were, where no ban is without an end and no address
/// has flow information.
pub proof fn stored_managers_are_read_back(states: Seq<PeerState>)
    requires
        forall|i: int|
            0 <= i < states.len() ==> (#[trigger] states[i]).banned_until != Some(u64::MAX)
                && notation::is_writable(states[i].address),
    ensures
        peers_of(states.map_values(|p: PeerState| row_of(p))) == Ok::<Seq<PeerState>, StorageFault>(
            states,
        ),
    decreases states.len(),
{
    let rows = states.map_values(|p: PeerState| row_of(p));
    if states.len() > 0 {
        let front = states.drop_last();
        assert forall|i: int| 0 <= i < front.len() implies (#[trigger] front[i]).banned_until
            != Some(u64::MAX) && notation::is_writable(front[i].address) by {
            assert(front[i] == states[i]);
        }
        stored_managers_are_read_back(front);
        assert(rows.drop_last() =~= front.map_values(|p: PeerState| row_of(p)));
        assert(states[states.len() - 1] == states.last());
        stored_peers_are_read_back(states.last());
        assert(front.push(states.last()) =~= states);
    } else {
        assert(states =~= Seq::<PeerState>::empty());
    }
}

/// A peer is stored as text and numbers, each in its column.
pub proof fn peers_are_stored_as_they_are(p: PeerState)
    ensures
        ({
            let row = row_of(p);
            let stamp = |t: Option<u64>|
                match t {
                    Some(n) => Some(text::decimal(n as nat)),
                    None => None::<Seq<char>>,
                };
            &&& row.address == addr::socket_text(p.address)
            &&& row.score == p.score
            &&& row.last_height == p.last_height.0
            &&& row.last_height_observed_at == stamp(p.last_height_observed_at)
            &&& row.last_connected_at == stamp(p.last_connected_at)
            &&& row.banned_until == stamp(p.banned_until)
            &&& row.successes == p.successes
            &&& row.failures == p.failures
        }),
{
}

/// A stored number is digits that fit, with a plus before them or not. It is told whether
/// there is none, it is too large, or it is not all digits.
pub proof fn stored_numbers_are_read(d: Seq<char>)
    requires
        d.len() == 0 || d[0] != '+',
    ensures
        ({
            let digits = forall|i: int| 0 <= i < d.len() ==> '0' <= #[trigger] d[i] <= '9';
            let good = d.len() > 0 && digits && text::number(d, 10) <= 0xffff_ffff_ffff_ffff;
            let signed = seq!['+'] + d;
            &&& u64_of(d) is Some <==> good
            &&& good ==> u64_of(d)->Some_0 == text::number(d, 10)
            &&& u64_of(signed) == u64_of(d)
            &&& d.len() == 0 ==> number_fault(d) == ValueFault::NoDigits && number_fault(signed)
                == ValueFault::InvalidDigit
            &&& d.len() > 0 ==> number_fault(signed) == number_fault(d)
            &&& d.len() > 0 && digits && !good ==> number_fault(d) == ValueFault::NumberTooLarge
            &&& d.len() > 0 && !('0' <= d[0] <= '9') ==> number_fault(d) == ValueFault::InvalidDigit
        }),
{
    let signed = seq!['+'] + d;
    assert(signed[0] == '+');
    assert(signed.skip(1) =~= d);
    text::lemma_number_monotone(d, 10, 0);
    if text::all_digits(d) {
        assert forall|i: int| 0 <= i < d.len() implies '0' <= #[trigger] d[i] <= '9' by {
            assert(text::is_digit(d[i]));
        }
    }
    if forall|i: int| 0 <= i < d.len() ==> '0' <= #[trigger] d[i] <= '9' {
        lemma_all_leading(d);
        assert(d.take(d.len() as int) =~= d);
    }
    if d.len() == 0 || !('0' <= d[0] <= '9') {
        assert(leading_digits(d) == 0);
        assert(text::number(d.take(leading_digits(d)), 10) == 0);
    }
}

proof fn lemma_all_leading(d: Seq<char>)
    requires
        forall|i: int| 0 <= i < d.len() ==> '0' <= #[trigger] d[i] <= '9',
    ensures
        leading_digits(d) == d.len(),
    decreases d.len(),
{
    if d.len() > 0 {
        assert forall|i: int| 0 <= i < d.drop_first().len() implies '0' <= #[trigger] d.drop_first()[i]
            <= '9' by {
            assert(d.drop_first()[i] == d[i + 1]);
        }
        lemma_all_leading(d.drop_first());
    }
}

/// A row is a peer exactly where its address is one, its stamps are numbers and its counts
/// fit; then each column is what it says, but that a ban without an end is lifted.
pub proof fn rows_are_peers(row: RowView)
    ensures
        ({
            let stamp = |t: Option<Seq<char>>| t is None || u64_of(t->Some_0) is Some;
            let fits = |n: i64| 0 <= n <= 0xffff_ffff;
            let number = |t: Option<Seq<char>>|
                if t is None {
                    None
                } else {
                    u64_of(t->Some_0)
                };
            let r = peer_of(row);
            &&& r is Ok <==> notation::socket_of(row.address) is Some && stamp(row.banned_until)
                && stamp(row.last_height_observed_at) && stamp(row.last_connected_at) && fits(
                row.last_height,
            ) && fits(row.successes) && fits(row.failures)
            &&& r matches Ok(p) ==> {
                &&& p.address == notation::socket_of(row.address)->Some_0
                &&& p.score == row.score
                &&& p.last_height.0 == row.last_height
                &&& p.last_height_observed_at == number(row.last_height_observed_at)
                &&& p.last_connected_at == number(row.last_connected_at)
                &&& p.banned_until == if number(row.banned_until) == Some(u64::MAX) {
                    None
                } else {
                    number(row.banned_until)
                }
                &&& p.successes == row.successes
                &&& p.failures == row.failures
            }
        }),
{
}

/// What is wrong with a row is told by its column: the ban first, then the address, the
/// height, its time, the connection, the successes and the failures.
pub proof fn faults_of_rows_are_named(row: RowView)
    ensures
        ({
            let bad = |t: Option<Seq<char>>| t is Some && u64_of(t->Some_0) is None;
            let unfit = |n: i64| n < 0 || n > 0xffff_ffff;
            let r = peer_of(row);
            let fault = |column: u64, f: ValueFault|
                r == Err::<PeerState, StorageFault>(StorageFault { column, fault: f });
            let range = ValueFault::OutOfRange;
            let ok5 = !bad(row.banned_until);
            let ok0 = ok5 && notation::socket_of(row.address) is Some;
            let ok2 = ok0 && !unfit(row.last_height);
            let ok3 = ok2 && !bad(row.last_height_observed_at);
            let ok4 = ok3 && !bad(row.last_connected_at);
            let ok6 = ok4 && !unfit(row.successes);
            &&& !ok5 ==> fault(5, number_fault(row.banned_until->Some_0))
            &&& ok5 && !ok0 ==> fault(0, ValueFault::Address)
            &&& ok0 && !ok2 ==> fault(2, range)
            &&& ok2 && !ok3 ==> fault(3, number_fault(row.last_height_observed_at->Some_0))
            &&& ok3 && !ok4 ==> fault(4, number_fault(row.last_connected_at->Some_0))
            &&& ok4 && !ok6 ==> fault(6, range)
            &&& ok6 && unfit(row.failures) ==> fault(7, range)
        }),
{
}

/// A stored count is one where it is not negative and fits.
pub proof fn stored_counts_are_read(value: i64, column: u64, r: Result<usize, StorageFault>)
    requires
        call_ensures(usize_from_i64, (value, column), r),
    ensures
        value < 0 ==> r is Err,
        0 <= value <= usize::MAX ==> r is Ok && r->Ok_0 == value,
        r is Err ==> r->Err_0 == (StorageFault { column, fault: ValueFault::OutOfRange }),
{
}

/// Peers are stored and loaded as they are meant.
pub proof fn peers_are_stored_and_loaded(
    peer: &PeerState,
    stored: StoredPeer,
    row: &StoredPeer,
    loaded: Result<PeerState, StorageFault>,
)
    requires
        call_ensures(StoredPeer::of, (peer,), stored),
        call_ensures(row_to_peer_state, (row,), loaded),
    ensures
        stored@ == row_of(*peer),
        loaded == peer_of(row@),
{
}

/// Each fault is told in its own words.
pub proof fn faults_of_values_have_their_words(fault: ValueFault)
    ensures
        value_fault_text(fault) == (match fault {
            ValueFault::Address => "invalid socket address syntax"@,
            ValueFault::NoDigits => "cannot parse integer from empty string"@,
            ValueFault::InvalidDigit => "invalid digit found in string"@,
            ValueFault::NumberTooLarge => "number too large to fit in target type"@,
            ValueFault::OutOfRange => "out of range integral type conversion attempted"@,
        }),
{
}

} // verus!

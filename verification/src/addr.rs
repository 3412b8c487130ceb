//! Internet addresses: values, textual forms and order.

use crate::text;
use vstd::prelude::*;

verus! {

/// An IPv4 address as the number that its four octets denote.
#[derive(Clone, Copy, Debug, Hash, PartialEq, Eq, PartialOrd, Ord, Structural)]
pub struct Ipv4Addr {
    pub bits: u32,
}

/// An IPv6 address as the number that its eight groups denote.
#[derive(Clone, Copy, Debug, Hash, PartialEq, Eq, PartialOrd, Ord, Structural)]
pub struct Ipv6Addr {
    pub bits: u128,
}

#[derive(Clone, Copy, Debug, Hash, PartialEq, Eq, PartialOrd, Ord, Structural)]
pub enum IpAddr {
    V4(Ipv4Addr),
    V6(Ipv6Addr),
}

/// An address with a port. An IPv6 one also has its flow information, and the number of
/// the scope in which the address holds.
#[derive(Clone, Copy, Debug, Hash, PartialEq, Eq, PartialOrd, Ord, Structural)]
pub enum SocketAddr {
    V4 { ip: Ipv4Addr, port: u16 },
    V6 { ip: Ipv6Addr, port: u16, flow: u32, scope: u32 },
}

// ---------------------------------------------------------------------
// Positional notation
// ---------------------------------------------------------------------

/// The last `len` digits of `n` in the given base, most significant first.
pub open spec fn base_digits(n: nat, base: nat, len: nat) -> Seq<int>
    decreases len,
{
    if len == 0 {
        Seq::empty()
    } else {
        base_digits(n / base, base, (len - 1) as nat).push((n % base) as int)
    }
}

/// The number whose digits are given, most significant first.
pub open spec fn from_digits(s: Seq<int>, base: int) -> int
    decreases s.len(),
{
    if s.len() == 0 {
        0
    } else {
        from_digits(s.drop_last(), base) * base + s.last()
    }
}

pub open spec fn power(base: nat, len: nat) -> nat
    decreases len,
{
    if len == 0 {
        1
    } else {
        base * power(base, (len - 1) as nat)
    }
}

pub proof fn lemma_base_digits_len(n: nat, base: nat, len: nat)
    requires
        base >= 1,
    ensures
        base_digits(n, base, len).len() == len,
        forall|i: int| 0 <= i < len ==> 0 <= #[trigger] base_digits(n, base, len)[i] < base,
    decreases len,
{
    if len > 0 {
        lemma_base_digits_len(n / base, base, (len - 1) as nat);
        assert(0 <= n % base < base) by (nonlinear_arith)
            requires
                base >= 1,
        ;
    }
}

pub proof fn lemma_from_base_digits(n: nat, base: nat, len: nat)
    requires
        base >= 1,
        n < power(base, len),
    ensures
        from_digits(base_digits(n, base, len), base as int) == n,
    decreases len,
{
    if len > 0 {
        let rest = power(base, (len - 1) as nat);
        assert(n / base < rest) by (nonlinear_arith)
            requires
                n < base * rest,
                base >= 1,
        ;
        lemma_from_base_digits(n / base, base, (len - 1) as nat);
        let s = base_digits(n, base, len);
        assert(s.drop_last() == base_digits(n / base, base, (len - 1) as nat));
        assert((n / base) * base + n % base == n) by (nonlinear_arith)
            requires
                base >= 1,
        ;
    }
}

pub proof fn lemma_from_digits_bound(s: Seq<int>, base: nat)
    requires
        base >= 1,
        forall|i: int| 0 <= i < s.len() ==> 0 <= #[trigger] s[i] < base,
    ensures
        0 <= from_digits(s, base as int) < power(base, s.len()),
    decreases s.len(),
{
    if s.len() > 0 {
        let t = s.drop_last();
        assert forall|i: int| 0 <= i < t.len() implies 0 <= #[trigger] t[i] < base by {
            assert(t[i] == s[i]);
        }
        lemma_from_digits_bound(t, base);
        let a = from_digits(t, base as int);
        let p = power(base, t.len());
        assert(0 <= s.last() < base);
        assert(0 <= a * base + s.last() < base * p) by (nonlinear_arith)
            requires
                0 <= a < p,
                0 <= s.last() < base,
        ;
    }
}

pub proof fn lemma_base_digits_of_number(s: Seq<int>, base: nat)
    requires
        base >= 1,
        forall|i: int| 0 <= i < s.len() ==> 0 <= #[trigger] s[i] < base,
    ensures
        from_digits(s, base as int) >= 0,
        base_digits(from_digits(s, base as int) as nat, base, s.len()) == s,
    decreases s.len(),
{
    lemma_from_digits_bound(s, base);
    if s.len() > 0 {
        let t = s.drop_last();
        assert forall|i: int| 0 <= i < t.len() implies 0 <= #[trigger] t[i] < base by {
            assert(t[i] == s[i]);
        }
        lemma_base_digits_of_number(t, base);
        lemma_from_digits_bound(t, base);
        let a = from_digits(t, base as int);
        let x = s.last();
        assert(0 <= x < base);
        assert((a * base + x) / base as int == a && (a * base + x) % base as int == x)
            by (nonlinear_arith)
            requires
                0 <= a,
                0 <= x < base,
                base >= 1,
        ;
        assert(base_digits(from_digits(s, base as int) as nat, base, s.len()) == t.push(x));
        assert(t.push(x) == s);
    } else {
        assert(base_digits(0, base, 0) == s);
    }
}

pub proof fn lemma_powers()
    ensures
        power(256, 4) == 0x1_0000_0000,
        power(65536, 8) == 0x1_0000_0000_0000_0000_0000_0000_0000_0000int,
{
    reveal_with_fuel(power, 9);
}

// ---------------------------------------------------------------------
// IPv4 text
// ---------------------------------------------------------------------

impl Ipv4Addr {
    pub open spec fn octets_spec(self) -> Seq<int> {
        base_digits(self.bits as nat, 256, 4)
    }
}

impl Ipv6Addr {
    pub open spec fn groups_spec(self) -> Seq<int> {
        base_digits(self.bits as nat, 65536, 8)
    }
}

/// One decimal octet: one to three digits, no leading zero, at most 255.
pub open spec fn is_octet(t: Seq<char>) -> bool {
    &&& 1 <= t.len() <= 3
    &&& text::all_digits(t)
    &&& t.len() > 1 ==> t[0] != '0'
    &&& text::number(t, 10) <= 255
}

pub open spec fn is_ipv4_text(s: Seq<char>) -> bool {
    let p = text::split(s, '.');
    p.len() == 4 && forall|i: int| 0 <= i < 4 ==> is_octet(#[trigger] p[i])
}

pub open spec fn ipv4_octets(s: Seq<char>) -> Seq<int> {
    text::split(s, '.').map_values(|t: Seq<char>| text::number(t, 10))
}

/// The address that dotted decimal text denotes.
pub open spec fn ipv4_of(s: Seq<char>) -> Option<Ipv4Addr> {
    if is_ipv4_text(s) {
        Some(Ipv4Addr { bits: from_digits(ipv4_octets(s), 256) as u32 })
    } else {
        None
    }
}

fn octet_of(t: &[char]) -> (r: Option<u64>)
    ensures
        match r {
            Some(v) => is_octet(t@) && v == text::number(t@, 10),
            None => !is_octet(t@),
        },
{
    if t.len() == 0 || t.len() > 3 || !text::are_digits(t) || (t.len() > 1 && t[0] == '0') {
        return None;
    }
    match text::parse_number(t, 10) {
        Some(v) => if v <= 255 {
            Some(v)
        } else {
            None
        },
        None => None,
    }
}

proof fn lemma_octets_bound(s: Seq<char>)
    requires
        is_ipv4_text(s),
    ensures
        ipv4_octets(s).len() == 4,
        forall|i: int| 0 <= i < 4 ==> 0 <= #[trigger] ipv4_octets(s)[i] < 256,
        0 <= from_digits(ipv4_octets(s), 256) <= u32::MAX,
{
    let p = text::split(s, '.');
    assert forall|i: int| 0 <= i < 4 implies 0 <= #[trigger] ipv4_octets(s)[i] < 256 by {
        assert(is_octet(p[i]));
        text::lemma_number_monotone(p[i], 10, 0);
    }
    lemma_from_digits_bound(ipv4_octets(s), 256);
    lemma_powers();
}

/// Parses dotted decimal text.
pub fn parse_ipv4(chars: &[char]) -> (r: Option<Ipv4Addr>)
    ensures
        r == ipv4_of(chars@),
{
    let pieces = text::split_chars(chars, '.');
    let ghost p = text::split(chars@, '.');
    assert(pieces@.map_values(|q: Vec<char>| q@) == p);
    assert(pieces@.len() == p.len());
    if pieces.len() != 4 {
        return None;
    }
    let mut bits: u64 = 0;
    let mut i: usize = 0;
    assert(ipv4_octets(chars@).take(0) == Seq::<int>::empty());
    while i < 4
        invariant
            i <= 4,
            p == text::split(chars@, '.'),
            pieces@.map_values(|q: Vec<char>| q@) == p,
            pieces@.len() == 4,
            p.len() == 4,
            bits == from_digits(ipv4_octets(chars@).take(i as int), 256),
            bits < power(256, i as nat),
            forall|j: int| 0 <= j < i ==> is_octet(#[trigger] p[j]),
        decreases 4 - i,
    {
        assert(pieces@.map_values(|q: Vec<char>| q@)[i as int] == pieces@[i as int]@);
        match octet_of(pieces[i].as_slice()) {
            None => {
                return None;
            },
            Some(v) => {
                proof {
                    let o = ipv4_octets(chars@);
                    assert(o.take(i as int + 1).drop_last() == o.take(i as int));
                    reveal_with_fuel(power, 5);
                    assert(power(256, (i + 1) as nat) == 256 * power(256, i as nat));
                }
                bits = bits * 256 + v;
            },
        }
        i += 1;
    }
    proof {
        assert(ipv4_octets(chars@).take(4) == ipv4_octets(chars@));
        lemma_powers();
    }
    Some(Ipv4Addr { bits: bits as u32 })
}

pub open spec fn ipv4_text(a: Ipv4Addr) -> Seq<char> {
    let o = a.octets_spec();
    text::decimal(o[0] as nat) + seq!['.'] + text::decimal(o[1] as nat) + seq!['.'] + text::decimal(
        o[2] as nat,
    ) + seq!['.'] + text::decimal(o[3] as nat)
}

impl Ipv4Addr {
    /// The four octets, most significant first.
    pub fn octets(&self) -> (r: (u8, u8, u8, u8))
        ensures
            self.octets_spec() == seq![r.0 as int, r.1 as int, r.2 as int, r.3 as int],
    {
        let n: u32 = self.bits;
        let a: u8 = (n / 0x100_0000) as u8;
        let b: u8 = ((n / 0x1_0000) % 256) as u8;
        let c: u8 = ((n / 0x100) % 256) as u8;
        let d: u8 = (n % 256) as u8;
        proof {
            reveal_with_fuel(base_digits, 5);
            let s = self.octets_spec();
            assert(n as nat / 256nat / 256nat / 256nat == n / 0x100_0000);
            assert(n as nat / 256nat / 256nat == n / 0x1_0000);
            assert(s == seq![a as int, b as int, c as int, d as int]);
        }
        (a, b, c, d)
    }

    pub fn new(a: u8, b: u8, c: u8, d: u8) -> (r: Self)
        ensures
            r.octets_spec() == seq![a as int, b as int, c as int, d as int],
            r.bits == ((a * 256 + b) * 256 + c) * 256 + d,
    {
        let bits: u32 = ((a as u32 * 256 + b as u32) * 256 + c as u32) * 256 + d as u32;
        let r = Ipv4Addr { bits };
        proof {
            reveal_with_fuel(base_digits, 5);
            let n = bits as nat;
            assert(n / 256nat == (a * 256 + b) * 256 + c);
            assert(n / 256nat / 256nat == a * 256 + b);
            assert(n / 256nat / 256nat / 256nat == a);
            assert(r.octets_spec() == seq![a as int, b as int, c as int, d as int]);
        }
        r
    }

    /// Dotted decimal text.
    pub fn to_chars(&self) -> (r: Vec<char>)
        ensures
            r@ == ipv4_text(*self),
    {
        let o = self.octets();
        let mut v = text::digits_of(o.0 as u64, 10);
        v.push('.');
        let x = text::digits_of(o.1 as u64, 10);
        text::push_chars(&mut v, x.as_slice());
        v.push('.');
        let x = text::digits_of(o.2 as u64, 10);
        text::push_chars(&mut v, x.as_slice());
        v.push('.');
        let x = text::digits_of(o.3 as u64, 10);
        text::push_chars(&mut v, x.as_slice());
        assert(v@ == ipv4_text(*self));
        v
    }
}


// ---------------------------------------------------------------------
// IPv6 text
// ---------------------------------------------------------------------

/// One hexadecimal group: one to four digits.
pub open spec fn is_hextet(t: Seq<char>) -> bool {
    1 <= t.len() <= 4 && text::all_hex_digits(t)
}

/// The 16-bit words of colon-separated groups; the last piece may be a dotted
/// decimal IPv4 address where `tail` allows it, which stands for two words.
pub open spec fn words_of(s: Seq<char>, tail: bool) -> Option<Seq<int>> {
    let p = text::split(s, ':');
    let front = p.drop_last().map_values(|t: Seq<char>| text::number(t, 16));
    if !(forall|i: int| 0 <= i < p.len() - 1 ==> is_hextet(#[trigger] p[i])) {
        None
    } else if is_hextet(p.last()) {
        Some(front.push(text::number(p.last(), 16)))
    } else if tail && is_ipv4_text(p.last()) {
        let o = ipv4_octets(p.last());
        Some(front.push(o[0] * 256 + o[1]).push(o[2] * 256 + o[3]))
    } else {
        None
    }
}

/// Where the first `::` stands, or the length of `s` where there is none.
pub open spec fn double_colon(s: Seq<char>) -> int
    decreases s.len(),
{
    if s.len() == 0 {
        0
    } else if s.len() >= 2 && s[0] == ':' && s[1] == ':' {
        0
    } else {
        1 + double_colon(s.drop_first())
    }
}

pub open spec fn optional_words_of(s: Seq<char>, tail: bool) -> Option<Seq<int>> {
    if s.len() == 0 {
        Some(Seq::empty())
    } else {
        words_of(s, tail)
    }
}

/// The eight groups that the text denotes: all of them written out, or a `::`
/// that stands for at least one group of zeros.
pub open spec fn ipv6_groups_of(s: Seq<char>) -> Option<Seq<int>> {
    let k = double_colon(s);
    if k == s.len() {
        match words_of(s, true) {
            Some(w) => if w.len() == 8 {
                Some(w)
            } else {
                None
            },
            None => None,
        }
    } else {
        match (optional_words_of(s.take(k), false), optional_words_of(s.skip(k + 2), true)) {
            (Some(h), Some(t)) => if h.len() + t.len() <= 7 {
                Some(h + Seq::new((8 - h.len() - t.len()) as nat, |i: int| 0int) + t)
            } else {
                None
            },
            _ => None,
        }
    }
}

pub open spec fn ipv6_of(s: Seq<char>) -> Option<Ipv6Addr> {
    match ipv6_groups_of(s) {
        Some(g) => Some(Ipv6Addr { bits: from_digits(g, 65536) as u128 }),
        None => None,
    }
}

pub open spec fn as_words(v: Seq<u16>) -> Seq<int> {
    v.map_values(|w: u16| w as int)
}

proof fn lemma_as_words_push(v: Seq<u16>, w: u16)
    ensures
        as_words(v.push(w)) == as_words(v).push(w as int),
{
    assert(as_words(v.push(w)) =~= as_words(v).push(w as int));
}

fn hextet_of(t: &[char]) -> (r: Option<u16>)
    ensures
        match r {
            Some(v) => is_hextet(t@) && v == text::number(t@, 16),
            None => !is_hextet(t@),
        },
{
    if t.len() == 0 || t.len() > 4 || !text::are_hex_digits(t) {
        return None;
    }
    proof {
        lemma_number_bound(t@);
    }
    match text::parse_number(t, 16) {
        Some(v) => Some(v as u16),
        None => None,
    }
}

proof fn lemma_number_bound(t: Seq<char>)
    requires
        t.len() <= 4,
    ensures
        0 <= text::number(t, 16) < 65536,
{
    reveal_with_fuel(text::number, 5);
}

fn parse_words(chars: &[char], tail: bool) -> (r: Option<Vec<u16>>)
    ensures
        match (r, words_of(chars@, tail)) {
            (Some(v), Some(w)) => as_words(v@) == w,
            (None, None) => true,
            _ => false,
        },
{
    let pieces = text::split_chars(chars, ':');
    let ghost p = text::split(chars@, ':');
    let ghost front = p.drop_last().map_values(|t: Seq<char>| text::number(t, 16));
    proof {
        text::lemma_split_nonempty(chars@, ':');
        assert(pieces@.map_values(|q: Vec<char>| q@).len() == pieces@.len());
    }
    let mut words: Vec<u16> = Vec::new();
    let last: usize = pieces.len() - 1;
    let mut i: usize = 0;
    while i < last
        invariant
            i <= last,
            last == pieces@.len() - 1,
            last == p.len() - 1,
            p == text::split(chars@, ':'),
            front == p.drop_last().map_values(|t: Seq<char>| text::number(t, 16)),
            pieces@.map_values(|q: Vec<char>| q@) == p,
            forall|j: int| 0 <= j < i ==> is_hextet(#[trigger] p[j]),
            as_words(words@) == front.take(i as int),
        decreases last - i,
    {
        assert(pieces@.map_values(|q: Vec<char>| q@)[i as int] == pieces@[i as int]@);
        match hextet_of(pieces[i].as_slice()) {
            None => {
                return None;
            },
            Some(w) => {
                proof {
                    lemma_as_words_push(words@, w);
                    assert(front[i as int] == text::number(p[i as int], 16));
                    assert(front.take(i as int + 1) == front.take(i as int).push(front[i as int]));
                }
                words.push(w);
            },
        }
        i += 1;
    }
    assert(front.take(i as int) == front);
    assert(pieces@.map_values(|q: Vec<char>| q@)[last as int] == pieces@[last as int]@);
    match hextet_of(pieces[last].as_slice()) {
        Some(w) => {
            words.push(w);
            assert(as_words(words@) == front.push(w as int));
            return Some(words);
        },
        None => {},
    }
    if !tail {
        return None;
    }
    match parse_ipv4(pieces[last].as_slice()) {
        None => None,
        Some(a) => {
            let o = a.octets();
            proof {
                lemma_octets_bound(p.last());
                lemma_base_digits_of_number(ipv4_octets(p.last()), 256);
            }
            let ghost oc = ipv4_octets(p.last());
            assert(oc == seq![o.0 as int, o.1 as int, o.2 as int, o.3 as int]);
            assert(oc[0] == o.0 && oc[1] == o.1 && oc[2] == o.2 && oc[3] == o.3);
            words.push(o.0 as u16 * 256 + o.1 as u16);
            words.push(o.2 as u16 * 256 + o.3 as u16);
            assert(as_words(words@) == front.push(oc[0] * 256 + oc[1]).push(
                oc[2] * 256 + oc[3],
            ));
            Some(words)
        },
    }
}

pub proof fn lemma_double_colon(s: Seq<char>, i: int)
    requires
        0 <= i <= s.len(),
        forall|j: int| 0 <= j < i ==> !(s[j] == ':' && j + 1 < s.len() && #[trigger] s[j + 1] == ':'),
        i < s.len() ==> i + 1 < s.len() && s[i] == ':' && s[i + 1] == ':',
    ensures
        double_colon(s) == i,
    decreases s.len(),
{
    if s.len() > 0 && i > 0 {
        let t = s.drop_first();
        assert(!(s[0] == ':' && 0int + 1 < s.len() && s[0int + 1] == ':'));
        assert forall|j: int| 0 <= j < i - 1 implies !(t[j] == ':' && j + 1 < t.len()
            && #[trigger] t[j + 1] == ':') by {
            assert(t[j] == s[j + 1]);
            if j + 1 < t.len() {
                assert(t[j + 1] == s[(j + 1) + 1]);
            }
        }
        lemma_double_colon(t, i - 1);
    }
}

fn find_double_colon(chars: &[char]) -> (r: usize)
    ensures
        r == double_colon(chars@),
        r == chars@.len() || r + 2 <= chars@.len(),
{
    let mut i: usize = 0;
    while i < chars.len()
        invariant
            i <= chars@.len(),
            forall|j: int|
                0 <= j < i ==> !(chars@[j] == ':' && j + 1 < chars@.len() && #[trigger] chars@[j
                    + 1] == ':'),
        decreases chars.len() - i,
    {
        if chars[i] == ':' && i + 1 < chars.len() && chars[i + 1] == ':' {
            proof {
                lemma_double_colon(chars@, i as int);
            }
            return i;
        }
        i += 1;
    }
    proof {
        lemma_double_colon(chars@, i as int);
    }
    i
}

fn parse_optional_words(chars: &[char], tail: bool) -> (r: Option<Vec<u16>>)
    ensures
        match (r, optional_words_of(chars@, tail)) {
            (Some(v), Some(w)) => as_words(v@) == w,
            (None, None) => true,
            _ => false,
        },
{
    if chars.len() == 0 {
        let v: Vec<u16> = Vec::new();
        assert(as_words(v@) == Seq::<int>::empty());
        Some(v)
    } else {
        parse_words(chars, tail)
    }
}

fn join_words(words: &[u16]) -> (r: u128)
    requires
        words@.len() == 8,
    ensures
        r == from_digits(as_words(words@), 65536),
{
    let mut bits: u128 = 0;
    let mut i: usize = 0;
    assert(as_words(words@).take(0) == Seq::<int>::empty());
    while i < 8
        invariant
            i <= 8,
            words@.len() == 8,
            bits == from_digits(as_words(words@).take(i as int), 65536),
            bits < power(65536, i as nat),
        decreases 8 - i,
    {
        proof {
            let w = as_words(words@);
            assert(w.take(i as int + 1).drop_last() == w.take(i as int));
            reveal_with_fuel(power, 9);
            assert(power(65536, (i + 1) as nat) == 65536 * power(65536, i as nat));
        }
        bits = bits * 65536 + words[i] as u128;
        i += 1;
    }
    assert(as_words(words@).take(8) == as_words(words@));
    bits
}

/// Parses the textual form of an IPv6 address.
pub fn parse_ipv6(chars: &[char]) -> (r: Option<Ipv6Addr>)
    ensures
        r == ipv6_of(chars@),
{
    let k: usize = find_double_colon(chars);
    if k == chars.len() {
        match parse_words(chars, true) {
            Some(w) => if w.len() == 8 {
                assert(as_words(w@).len() == w@.len());
                Some(Ipv6Addr { bits: join_words(w.as_slice()) })
            } else {
                assert(as_words(w@).len() == w@.len());
                None
            },
            None => None,
        }
    } else {
        let head = text::chars_between(chars, 0, k);
        let tail = text::chars_between(chars, k + 2, chars.len());
        assert(head@ == chars@.take(k as int));
        assert(tail@ == chars@.skip(k as int + 2));
        let h = match parse_optional_words(head.as_slice(), false) {
            Some(h) => h,
            None => {
                return None;
            },
        };
        let t = match parse_optional_words(tail.as_slice(), true) {
            Some(t) => t,
            None => {
                return None;
            },
        };
        let ghost hw = as_words(h@);
        let ghost tw = as_words(t@);
        assert(hw.len() == h@.len() && tw.len() == t@.len());
        if h.len() > 7 || t.len() > 7 || h.len() + t.len() > 7 {
            return None;
        }
        let zeros: usize = 8 - h.len() - t.len();
        let ghost zero_words = Seq::new(zeros as nat, |i: int| 0int);
        let mut words = h;
        let mut i: usize = 0;
        while i < zeros
            invariant
                i <= zeros,
                zero_words == Seq::new(zeros as nat, |i: int| 0int),
                as_words(words@) == hw + zero_words.take(i as int),
            decreases zeros - i,
        {
            proof {
                lemma_as_words_push(words@, 0);
                assert(hw + zero_words.take(i as int + 1) == (hw + zero_words.take(i as int)).push(
                    0,
                ));
            }
            words.push(0);
            i += 1;
        }
        assert(zero_words.take(i as int) == zero_words);
        let mut j: usize = 0;
        while j < t.len()
            invariant
                j <= t@.len(),
                tw == as_words(t@),
                as_words(words@) == hw + zero_words + tw.take(j as int),
            decreases t.len() - j,
        {
            proof {
                lemma_as_words_push(words@, t@[j as int]);
                assert(tw[j as int] == t@[j as int]);
                assert(hw + zero_words + tw.take(j as int + 1) == (hw + zero_words + tw.take(
                    j as int,
                )).push(tw[j as int]));
            }
            words.push(t[j]);
            j += 1;
        }
        assert(tw.take(j as int) == tw);
        assert(as_words(words@).len() == words@.len());
        Some(Ipv6Addr { bits: join_words(words.as_slice()) })
    }
}

/// How many zero groups stand in a row from `i` on.
pub open spec fn zeros_from(g: Seq<int>, i: int) -> int
    decreases g.len() - i,
{
    if 0 <= i < g.len() && g[i] == 0 {
        1 + zeros_from(g, i + 1)
    } else {
        0
    }
}

/// The first of the longest runs of zero groups from `i` on: start and length.
pub open spec fn longest_run(g: Seq<int>, i: int) -> (int, int)
    decreases g.len() - i,
{
    if 0 <= i < g.len() {
        let rest = longest_run(g, i + 1);
        if zeros_from(g, i) >= rest.1 {
            (i, zeros_from(g, i))
        } else {
            rest
        }
    } else {
        (i, 0)
    }
}

pub open spec fn join_hex(g: Seq<int>) -> Seq<char>
    decreases g.len(),
{
    if g.len() == 0 {
        Seq::empty()
    } else if g.len() == 1 {
        text::digits(g[0] as nat, 16)
    } else {
        join_hex(g.drop_last()).push(':') + text::digits(g.last() as nat, 16)
    }
}

pub open spec fn is_ipv4_mapped(g: Seq<int>) -> bool {
    g[0] == 0 && g[1] == 0 && g[2] == 0 && g[3] == 0 && g[4] == 0 && g[5] == 0xffff
}

/// The canonical text: IPv4-mapped addresses in dotted form, otherwise lower
/// case hexadecimal with the first longest run of two or more zero groups
/// written as `::`.
pub open spec fn ipv6_text(a: Ipv6Addr) -> Seq<char> {
    let g = a.groups_spec();
    let run = longest_run(g, 0);
    if is_ipv4_mapped(g) {
        "::ffff:"@ + ipv4_text(Ipv4Addr { bits: (g[6] * 65536 + g[7]) as u32 })
    } else if run.1 >= 2 {
        join_hex(g.take(run.0)) + "::"@ + join_hex(g.skip(run.0 + run.1))
    } else {
        join_hex(g)
    }
}

impl Ipv6Addr {
    /// The eight groups, most significant first.
    pub fn groups(&self) -> (r: Vec<u16>)
        ensures
            as_words(r@) == self.groups_spec(),
            r@.len() == 8,
    {
        let v = last_words(self.bits, 8);
        proof {
            lemma_base_digits_len(self.bits as nat, 65536, 8);
            assert(as_words(v@).len() == v@.len());
        }
        v
    }

    pub fn to_chars(&self) -> (r: Vec<char>)
        ensures
            r@ == ipv6_text(*self),
    {
        let g = self.groups();
        let ghost gs = self.groups_spec();
        proof {
            assert forall|i: int| 0 <= i < 8 implies #[trigger] gs[i] == g@[i] by {
                assert(as_words(g@)[i] == g@[i]);
            }
        }
        if g[0] == 0 && g[1] == 0 && g[2] == 0 && g[3] == 0 && g[4] == 0 && g[5] == 0xffff {
            let mut v = text::to_chars("::ffff:");
            let a = Ipv4Addr { bits: g[6] as u32 * 65536 + g[7] as u32 };
            let x = a.to_chars();
            text::push_chars(&mut v, x.as_slice());
            return v;
        }
        let (start, len) = find_longest_run(g.as_slice());
        if len >= 2 {
            let mut v = hex_text(g.as_slice(), 0, start);
            text::push_str(&mut v, "::");
            let x = hex_text(g.as_slice(), start + len, 8);
            text::push_chars(&mut v, x.as_slice());
            assert(gs.take(start as int) == gs.subrange(0, start as int));
            assert(gs.skip(start + len) == gs.subrange(start + len, 8));
            v
        } else {
            assert(gs.subrange(0, 8) == gs);
            hex_text(g.as_slice(), 0, 8)
        }
    }
}

fn last_words(bits: u128, len: usize) -> (r: Vec<u16>)
    ensures
        as_words(r@) == base_digits(bits as nat, 65536, len as nat),
    decreases len,
{
    if len == 0 {
        let v: Vec<u16> = Vec::new();
        assert(as_words(v@) == Seq::<int>::empty());
        v
    } else {
        let mut v = last_words(bits / 65536, len - 1);
        let ghost before = as_words(v@);
        let w: u16 = (bits % 65536) as u16;
        v.push(w);
        assert(as_words(v@) == before.push(w as int));
        v
    }
}

fn find_longest_run(g: &[u16]) -> (r: (usize, usize))
    requires
        g@.len() == 8,
    ensures
        (r.0 as int, r.1 as int) == longest_run(as_words(g@), 0),
        r.0 + r.1 <= 8,
{
    let ghost w = as_words(g@);
    let mut start: usize = 8;
    let mut len: usize = 0;
    let mut here: usize = 0;
    let mut i: usize = 8;
    while i > 0
        invariant
            i <= 8,
            g@.len() == 8,
            w == as_words(g@),
            w.len() == 8,
            (start as int, len as int) == longest_run(w, i as int),
            here == zeros_from(w, i as int),
            here <= 8 - i,
            start + len <= 8,
        decreases i,
    {
        i -= 1;
        assert(w[i as int] == g@[i as int]);
        if g[i] == 0 {
            here += 1;
        } else {
            here = 0;
        }
        if here >= len {
            start = i;
            len = here;
        }
    }
    (start, len)
}

fn hex_text(g: &[u16], from: usize, to: usize) -> (r: Vec<char>)
    requires
        from <= to <= g@.len(),
    ensures
        r@ == join_hex(as_words(g@).subrange(from as int, to as int)),
{
    let ghost w = as_words(g@);
    let mut v: Vec<char> = Vec::new();
    let mut i: usize = from;
    assert(w.subrange(from as int, from as int) == Seq::<int>::empty());
    while i < to
        invariant
            from <= i <= to <= g@.len(),
            w == as_words(g@),
            w.len() == g@.len(),
            v@ == join_hex(w.subrange(from as int, i as int)),
        decreases to - i,
    {
        let ghost part = w.subrange(from as int, i as int + 1);
        assert(part.drop_last() == w.subrange(from as int, i as int));
        assert(part.last() == g@[i as int]);
        if i > from {
            v.push(':');
        }
        let x = text::digits_of(g[i] as u64, 16);
        text::push_chars(&mut v, x.as_slice());
        if i == from {
            assert(part.len() == 1);
            assert(v@ == x@);
        }
        i += 1;
    }
    v
}


// ---------------------------------------------------------------------
// Either family
// ---------------------------------------------------------------------

pub open spec fn ip_of(s: Seq<char>) -> Option<IpAddr> {
    match ipv4_of(s) {
        Some(a) => Some(IpAddr::V4(a)),
        None => match ipv6_of(s) {
            Some(a) => Some(IpAddr::V6(a)),
            None => None,
        },
    }
}

pub open spec fn ip_text(ip: IpAddr) -> Seq<char> {
    match ip {
        IpAddr::V4(a) => ipv4_text(a),
        IpAddr::V6(a) => ipv6_text(a),
    }
}

/// Whether an IPv4 address belongs to a single host of the public internet: it is
/// neither of this network, private, shared, loopback, link-local, for protocols,
/// for documentation or for benchmarks, nor multicast or reserved.
pub open spec fn is_public_ipv4(a: Ipv4Addr) -> bool {
    let o = a.octets_spec();
    &&& o[0] != 0 && o[0] != 10 && o[0] != 127 && o[0] < 224
    &&& !(o[0] == 100 && 64 <= o[1] < 128)
    &&& !(o[0] == 169 && o[1] == 254)
    &&& !(o[0] == 172 && 16 <= o[1] < 32)
    &&& !(o[0] == 192 && o[1] == 168)
    &&& !(o[0] == 192 && o[1] == 0 && (o[2] == 0 || o[2] == 2))
    &&& !(o[0] == 198 && (o[1] == 18 || o[1] == 19))
    &&& !(o[0] == 198 && o[1] == 51 && o[2] == 100)
    &&& !(o[0] == 203 && o[1] == 0 && o[2] == 113)
}

/// Whether an IPv6 address belongs to a single host of the public internet: it is of
/// the global unicast block, and neither for protocols, for documentation nor for
/// tunnels over IPv4.
pub open spec fn is_public_ipv6(a: Ipv6Addr) -> bool {
    let g = a.groups_spec();
    &&& 0x2000 <= g[0] < 0x4000
    &&& !(g[0] == 0x2001 && (g[1] < 0x200 || g[1] == 0xdb8))
    &&& g[0] != 0x2002
    &&& !(g[0] == 0x3fff && g[1] < 0x1000)
}

pub open spec fn is_public_ip(ip: IpAddr) -> bool {
    match ip {
        IpAddr::V4(a) => is_public_ipv4(a),
        IpAddr::V6(a) => is_public_ipv6(a),
    }
}

impl IpAddr {
    /// Whether the address belongs to a single host of the public internet.
    pub fn is_public(&self) -> (r: bool)
        ensures
            r == is_public_ip(*self),
    {
        match self {
            IpAddr::V4(a) => {
                let (o0, o1, o2, _) = a.octets();
                o0 != 0 && o0 != 10 && o0 != 127 && o0 < 224 && !(o0 == 100 && 64 <= o1 && o1
                    < 128) && !(o0 == 169 && o1 == 254) && !(o0 == 172 && 16 <= o1 && o1 < 32)
                    && !(o0 == 192 && o1 == 168) && !(o0 == 192 && o1 == 0 && (o2 == 0 || o2
                    == 2)) && !(o0 == 198 && (o1 == 18 || o1 == 19)) && !(o0 == 198 && o1 == 51
                    && o2 == 100) && !(o0 == 203 && o1 == 0 && o2 == 113)
            },
            IpAddr::V6(a) => {
                let g = a.groups();
                let ghost gs = a.groups_spec();
                assert(gs[0] == as_words(g@)[0] && gs[1] == as_words(g@)[1]);
                0x2000 <= g[0] && g[0] < 0x4000 && !(g[0] == 0x2001 && (g[1] < 0x200 || g[1]
                    == 0xdb8)) && g[0] != 0x2002 && !(g[0] == 0x3fff && g[1] < 0x1000)
            },
        }
    }
}

/// Parses the textual form of an address.
pub fn parse_ip(chars: &[char]) -> (r: Option<IpAddr>)
    ensures
        r == ip_of(chars@),
{
    match parse_ipv4(chars) {
        Some(a) => Some(IpAddr::V4(a)),
        None => match parse_ipv6(chars) {
            Some(a) => Some(IpAddr::V6(a)),
            None => None,
        },
    }
}

pub open spec fn loopback(ip: IpAddr) -> bool {
    match ip {
        IpAddr::V4(a) => a.octets_spec()[0] == 127,
        IpAddr::V6(a) => a.bits == 1,
    }
}

impl IpAddr {
    pub fn to_chars(&self) -> (r: Vec<char>)
        ensures
            r@ == ip_text(*self),
    {
        match self {
            IpAddr::V4(a) => a.to_chars(),
            IpAddr::V6(a) => a.to_chars(),
        }
    }

    /// Whether the address is that of the local host.
    pub fn is_loopback(&self) -> (r: bool)
        ensures
            r == loopback(*self),
    {
        match self {
            IpAddr::V4(a) => {
                let o = a.octets();
                assert(a.octets_spec()[0] == o.0);
                o.0 == 127
            },
            IpAddr::V6(a) => a.bits == 1,
        }
    }
}

/// The address and port of a socket address, where there is no more to it.
pub open spec fn socket_at(ip: IpAddr, port: u16) -> SocketAddr {
    match ip {
        IpAddr::V4(ip) => SocketAddr::V4 { ip, port },
        IpAddr::V6(ip) => SocketAddr::V6 { ip, port, flow: 0, scope: 0 },
    }
}

pub open spec fn socket_ip(a: SocketAddr) -> IpAddr {
    match a {
        SocketAddr::V4 { ip, .. } => IpAddr::V4(ip),
        SocketAddr::V6 { ip, .. } => IpAddr::V6(ip),
    }
}

pub open spec fn socket_port(a: SocketAddr) -> u16 {
    match a {
        SocketAddr::V4 { port, .. } => port,
        SocketAddr::V6 { port, .. } => port,
    }
}

/// The text of a scope, where it is not the default one.
pub open spec fn scope_text(scope: u32) -> Seq<char> {
    if scope == 0 {
        Seq::empty()
    } else {
        seq!['%'] + text::decimal(scope as nat)
    }
}

/// The text of an address and its port; an IPv6 address stands in brackets, with its
/// scope. Flow information is not written.
pub open spec fn socket_text(a: SocketAddr) -> Seq<char> {
    match a {
        SocketAddr::V4 { ip, port } => ipv4_text(ip) + seq![':'] + text::decimal(port as nat),
        SocketAddr::V6 { ip, port, scope, .. } => seq!['['] + ipv6_text(ip) + scope_text(scope)
            + seq![']', ':'] + text::decimal(port as nat),
    }
}

impl SocketAddr {
    pub fn new(ip: IpAddr, port: u16) -> (r: Self)
        ensures
            r == socket_at(ip, port),
    {
        match ip {
            IpAddr::V4(ip) => SocketAddr::V4 { ip, port },
            IpAddr::V6(ip) => SocketAddr::V6 { ip, port, flow: 0, scope: 0 },
        }
    }

    pub fn ip(&self) -> (r: IpAddr)
        ensures
            r == socket_ip(*self),
    {
        match self {
            SocketAddr::V4 { ip, .. } => IpAddr::V4(*ip),
            SocketAddr::V6 { ip, .. } => IpAddr::V6(*ip),
        }
    }

    pub fn port(&self) -> (r: u16)
        ensures
            r == socket_port(*self),
    {
        match self {
            SocketAddr::V4 { port, .. } => *port,
            SocketAddr::V6 { port, .. } => *port,
        }
    }

    pub fn to_chars(&self) -> (r: Vec<char>)
        ensures
            r@ == socket_text(*self),
    {
        let mut out: Vec<char> = Vec::new();
        match self {
            SocketAddr::V4 { ip, .. } => {
                let t = ip.to_chars();
                text::push_chars(&mut out, t.as_slice());
            },
            SocketAddr::V6 { ip, scope, .. } => {
                out.push('[');
                let t = ip.to_chars();
                text::push_chars(&mut out, t.as_slice());
                if *scope != 0 {
                    out.push('%');
                    let d = text::digits_of(*scope as u64, 10);
                    text::push_chars(&mut out, d.as_slice());
                }
                assert(out@ =~= seq!['['] + ipv6_text(*ip) + scope_text(*scope));
                out.push(']');
            },
        }
        out.push(':');
        let d = text::digits_of(self.port() as u64, 10);
        text::push_chars(&mut out, d.as_slice());
        assert(out@ =~= socket_text(*self));
        out
    }
}

/// The octets of an address are its bits, eight at a time, the highest first.
pub proof fn octets_are_the_bits(a: Ipv4Addr)
    ensures
        a.octets_spec() == seq![
            a.bits as int / 0x1000000,
            a.bits as int / 0x10000 % 256,
            a.bits as int / 0x100 % 256,
            a.bits as int % 256,
        ],
{
    reveal_with_fuel(base_digits, 5);
    let n = a.bits as nat;
    assert(n / 256 / 256 == n / 0x10000);
    assert(n / 256 / 256 / 256 == n / 0x1000000);
    assert(n / 0x1000000 < 256);
    assert(a.octets_spec() =~= seq![
        a.bits as int / 0x1000000,
        a.bits as int / 0x10000 % 256,
        a.bits as int / 0x100 % 256,
        a.bits as int % 256,
    ]);
}

/// The public addresses of the older kind are all but these ranges: this network, private
/// and shared ones, loopback, link-local, protocol assignments, documentation,
/// benchmarking, multicast and what is reserved.
pub proof fn reserved_addresses_are_not_public(a: Ipv4Addr)
    ensures
        is_public_ipv4(a) <==> {
            let n = a.bits as int;
            &&& n >= 0x0100_0000
            &&& !(0x0a00_0000 <= n < 0x0b00_0000)
            &&& !(0x6440_0000 <= n < 0x6480_0000)
            &&& !(0x7f00_0000 <= n < 0x8000_0000)
            &&& !(0xa9fe_0000 <= n < 0xa9ff_0000)
            &&& !(0xac10_0000 <= n < 0xac20_0000)
            &&& !(0xc000_0000 <= n < 0xc000_0100)
            &&& !(0xc000_0200 <= n < 0xc000_0300)
            &&& !(0xc0a8_0000 <= n < 0xc0a9_0000)
            &&& !(0xc612_0000 <= n < 0xc614_0000)
            &&& !(0xc633_6400 <= n < 0xc633_6500)
            &&& !(0xcb00_7100 <= n < 0xcb00_7200)
            &&& n < 0xe000_0000
        },
        loopback(IpAddr::V4(a)) <==> 0x7f00_0000 <= a.bits < 0x8000_0000,
        is_public_ip(IpAddr::V4(a)) == is_public_ipv4(a),
{
    octets_are_the_bits(a);
    let n = a.bits as int;
    let o0 = n / 0x1000000;
    let o1 = n / 0x10000 % 256;
    let o2 = n / 0x100 % 256;
    let o3 = n % 256;
    assert(n == o0 * 0x1000000 + o1 * 0x10000 + o2 * 0x100 + o3);
    assert(0 <= o0 < 256 && 0 <= o1 < 256 && 0 <= o2 < 256 && 0 <= o3 < 256);
}

/// The public addresses of the newer kind are those of the global range but for the
/// protocol assignments, documentation and the tunnels of the older kind.
pub proof fn global_addresses_are_public(a: Ipv6Addr)
    ensures
        is_public_ipv6(a) <==> {
            let top = a.bits as int / 0x1_0000_0000_0000_0000_0000_0000;
            &&& 0x2000_0000 <= top < 0x4000_0000
            &&& !(0x2001_0000 <= top < 0x2001_0200)
            &&& top != 0x2001_0db8
            &&& !(0x2002_0000 <= top < 0x2003_0000)
            &&& !(0x3fff_0000 <= top < 0x3fff_1000)
        },
        loopback(IpAddr::V6(a)) <==> a.bits == 1,
        is_public_ip(IpAddr::V6(a)) == is_public_ipv6(a),
{
    reveal_with_fuel(base_digits, 9);
    let n = a.bits as nat;
    let g = a.groups_spec();
    let m = n / 65536 / 65536 / 65536 / 65536 / 65536 / 65536;
    assert(m == n / 0x1_0000_0000_0000_0000_0000_0000);
    lemma_base_digits_len(n, 65536, 8);
    assert(g[0] == m / 65536 % 65536);
    assert(g[1] == m % 65536);
    assert(m < 0x1_0000_0000);
    assert(m / 65536 < 65536);
    assert(m == g[0] * 65536 + g[1]);
}

/// An address of the newer kind without a double colon is eight groups of one to four digits
/// of base sixteen, or six of them and an address of the older kind.
pub proof fn full_addresses_are_read(s: Seq<char>)
    requires
        forall|i: int|
            0 <= i < s.len() - 1 ==> !(#[trigger] s[i] == ':' && s[i + 1] == ':'),
    ensures
        ({
            let p = text::split(s, ':');
            let group = |t: Seq<char>| 1 <= t.len() <= 4 && text::all_hex_digits(t);
            let number = |t: Seq<char>| text::number(t, 16);
            let eight = p.len() == 8 && forall|i: int| 0 <= i < 8 ==> group(#[trigger] p[i]);
            let six = p.len() == 7 && (forall|i: int| 0 <= i < 6 ==> group(#[trigger] p[i]))
                && is_ipv4_text(p[6]);
            &&& ipv6_groups_of(s) is Some <==> eight || six
            &&& eight ==> ipv6_groups_of(s)->Some_0 == p.map_values(number)
            &&& six ==> {
                let o = ipv4_octets(p[6]);
                ipv6_groups_of(s)->Some_0 == p.take(6).map_values(number) + seq![
                    o[0] * 256 + o[1],
                    o[2] * 256 + o[3],
                ]
            }
        }),
{
    lemma_double_colon(s, s.len() as int);
    let p = text::split(s, ':');
    text::lemma_split_nonempty(s, ':');
    let number = |t: Seq<char>| text::number(t, 16);
    let front = p.drop_last().map_values(number);
    let group = |t: Seq<char>| 1 <= t.len() <= 4 && text::all_hex_digits(t);
    assert forall|i: int| 0 <= i < p.len() implies (group(#[trigger] p[i]) <==> is_hextet(
        p[i],
    )) by {}
    assert(p.last() == p[p.len() - 1]);
    if is_hextet(p.last()) {
        lemma_no_octets_in_a_group(p.last());
    }
    if p.len() == 8 {
        assert(p.map_values(number) =~= front.push(text::number(p.last(), 16)));
    }
    if p.len() == 7 {
        let o = ipv4_octets(p[6]);
        assert(p.take(6).map_values(number) + seq![o[0] * 256 + o[1], o[2] * 256 + o[3]] =~= front.push(
            o[0] * 256 + o[1],
        ).push(o[2] * 256 + o[3]));
    }
}

proof fn lemma_no_octets_in_a_group(t: Seq<char>)
    requires
        is_hextet(t),
    ensures
        !is_ipv4_text(t),
{
    if t.contains('.') {
        let i = choose|i: int| 0 <= i < t.len() && t[i] == '.';
        assert(text::is_hex_digit(t[i]));
    } else {
        lemma_one_piece(t);
    }
}

proof fn lemma_one_piece(t: Seq<char>)
    requires
        !t.contains('.'),
    ensures
        text::split(t, '.').len() == 1,
    decreases t.len(),
{
    if t.len() > 0 {
        let front = t.drop_last();
        assert forall|i: int| 0 <= i < front.len() implies front[i] != '.' by {
            assert(t.contains(t[i]));
        }
        assert(t.contains(t.last()));
        lemma_one_piece(front);
    }
}

/// A double colon stands for the zeros that are missing of eight groups, one or more; groups
/// before it and behind it are read as they are.
pub proof fn compressed_addresses_are_read(head: Seq<char>, tail: Seq<char>)
    requires
        forall|i: int|
            0 <= i < head.len() - 1 ==> !(#[trigger] head[i] == ':' && head[i + 1] == ':'),
        head.len() > 0 ==> head.last() != ':',
    ensures
        ({
            let none = Some(Seq::<int>::empty());
            let before = if head.len() == 0 {
                none
            } else {
                words_of(head, false)
            };
            let after = if tail.len() == 0 {
                none
            } else {
                words_of(tail, true)
            };
            let given = before->Some_0.len() + after->Some_0.len();
            let r = ipv6_groups_of(head + seq![':', ':'] + tail);
            &&& r is Some <==> before is Some && after is Some && given <= 7
            &&& r is Some ==> r->Some_0.len() == 8 && r->Some_0.take(before->Some_0.len() as int)
                == before->Some_0 && r->Some_0.skip(8 - after->Some_0.len()) == after->Some_0
                && forall|i: int|
                before->Some_0.len() <= i < 8 - after->Some_0.len() ==> #[trigger] r->Some_0[i] == 0
        }),
{
    let s = head + seq![':', ':'] + tail;
    let k = head.len() as int;
    assert forall|j: int| 0 <= j < k implies !(s[j] == ':' && j + 1 < s.len() && #[trigger] s[j + 1]
        == ':') by {
        assert(s[j] == head[j]);
        if j + 1 < k {
            assert(s[j + 1] == head[j + 1]);
            assert(!(head[j] == ':' && head[j + 1] == ':'));
        }
    }
    assert(s[k] == ':' && s[k + 1] == ':');
    lemma_double_colon(s, k);
    assert(s.take(k) =~= head);
    assert(s.skip(k + 2) =~= tail);
    match (optional_words_of(head, false), optional_words_of(tail, true)) {
        (Some(h), Some(t)) => {
            if h.len() + t.len() <= 7 {
                let r = h + Seq::new((8 - h.len() - t.len()) as nat, |i: int| 0int) + t;
                assert(r.take(h.len() as int) =~= h);
                assert(r.skip(8 - t.len()) =~= t);
            }
        },
        _ => {},
    }
}

/// The longest run of zeros is found, and the first of several.
pub proof fn the_longest_run_is_found(g: Seq<int>, i: int)
    requires
        0 <= i <= g.len(),
    ensures
        ({
            let (k, n) = longest_run(g, i);
            &&& i <= k <= g.len() && 0 <= n && k + n <= g.len()
            &&& forall|j: int| k <= j < k + n ==> #[trigger] g[j] == 0
            &&& forall|j: int, m: int|
                i <= j && 0 < m && j + m <= g.len() && (forall|x: int|
                    j <= x < j + m ==> #[trigger] g[x] == 0) ==> #[trigger] run_ends(j, m) <= n + j
                    && (m == n ==> k <= j)
        }),
    decreases g.len() - i,
{
    lemma_run_at(g, i);
    if i < g.len() {
        the_longest_run_is_found(g, i + 1);
        let (k, n) = longest_run(g, i);
        assert forall|j: int, m: int|
            i <= j && 0 < m && j + m <= g.len() && (forall|x: int|
                j <= x < j + m ==> #[trigger] g[x] == 0) implies #[trigger] run_ends(j, m) <= n + j
            && (m == n ==> k <= j) by {
            if j == i {
                lemma_run_bound(g, i, m);
            } else {
                assert(run_ends(j, m) <= longest_run(g, i + 1).1 + j);
            }
        }
    }
}

/// Where a run of so many ends.
pub open spec fn run_ends(start: int, length: int) -> int {
    start + length
}

proof fn lemma_run_at(g: Seq<int>, i: int)
    requires
        0 <= i <= g.len(),
    ensures
        0 <= zeros_from(g, i) && i + zeros_from(g, i) <= g.len(),
        forall|j: int| i <= j < i + zeros_from(g, i) ==> #[trigger] g[j] == 0,
        i + zeros_from(g, i) < g.len() ==> g[i + zeros_from(g, i)] != 0,
    decreases g.len() - i,
{
    if i < g.len() && g[i] == 0 {
        lemma_run_at(g, i + 1);
    }
}

proof fn lemma_run_bound(g: Seq<int>, i: int, m: int)
    requires
        0 <= i,
        0 < m,
        i + m <= g.len(),
        forall|x: int| i <= x < i + m ==> #[trigger] g[x] == 0,
    ensures
        m <= zeros_from(g, i),
{
    lemma_run_at(g, i);
    let z = zeros_from(g, i);
    if z < m {
        assert(g[i + z] == 0);
    }
}

/// An address of the newer kind is written in groups without leading zeros, with the longest
/// run of two zeros or more left out; one that stands for the older kind is written so.
pub proof fn newer_addresses_are_written(a: Ipv6Addr, groups: Seq<int>, group: int)
    ensures
        ({
            let g = a.groups_spec();
            let (k, n) = longest_run(g, 0);
            let mapped = g.take(5) == seq![0int, 0, 0, 0, 0] && g[5] == 0xffff;
            ipv6_text(a) == if mapped {
                "::ffff:"@ + ipv4_text(Ipv4Addr { bits: (g[6] * 65536 + g[7]) as u32 })
            } else if n >= 2 {
                join_hex(g.take(k)) + "::"@ + join_hex(g.skip(k + n))
            } else {
                join_hex(g)
            }
        }),
        join_hex(Seq::empty()) == Seq::<char>::empty(),
        join_hex(seq![group]) == text::digits(group as nat, 16),
        groups.len() > 0 ==> join_hex(groups.push(group)) == join_hex(groups) + seq![':']
            + text::digits(group as nat, 16),
{
    let g = a.groups_spec();
    lemma_base_digits_len(a.bits as nat, 65536, 8);
    if is_ipv4_mapped(g) {
        assert(g.take(5) =~= seq![0int, 0, 0, 0, 0]);
    }
    if g.take(5) == seq![0int, 0, 0, 0, 0] {
        let t = g.take(5);
        assert(t[0] == 0 && t[1] == 0 && t[2] == 0 && t[3] == 0 && t[4] == 0);
    }
    if groups.len() > 0 {
        assert(groups.push(group).drop_last() =~= groups);
        assert(join_hex(groups).push(':') =~= join_hex(groups) + seq![':']);
    }
}

/// Addresses are parsed, classed and written as they are meant.
pub proof fn addresses_are_parsed(
    chars: &[char],
    parsed: Option<IpAddr>,
    ip: &IpAddr,
    public: bool,
    here: bool,
    written: Vec<char>,
)
    requires
        call_ensures(parse_ip, (chars,), parsed),
        call_ensures(IpAddr::is_public, (ip,), public),
        call_ensures(IpAddr::is_loopback, (ip,), here),
        call_ensures(IpAddr::to_chars, (ip,), written),
    ensures
        parsed == ip_of(chars@),
        public == is_public_ip(*ip),
        here == loopback(*ip),
        written@ == ip_text(*ip),
        ipv4_of(chars@) is Some ==> parsed == Some(IpAddr::V4(ipv4_of(chars@)->Some_0)),
        ipv4_of(chars@) is None && ipv6_of(chars@) is Some ==> parsed == Some(
            IpAddr::V6(ipv6_of(chars@)->Some_0),
        ),
{
}

} // verus!

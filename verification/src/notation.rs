//! Addresses and numbers as text: reading ports and socket addresses, and the
//! proofs that what is written is read back.

use crate::addr;
use crate::addr::{Ipv4Addr, Ipv6Addr, SocketAddr};
use crate::text;
use vstd::prelude::*;

verus! {

// ---------------------------------------------------------------------
// Socket addresses
// ---------------------------------------------------------------------

/// Some digits that denote at most 65535.
pub open spec fn port_of(s: Seq<char>) -> Option<u16> {
    if s.len() > 0 && text::all_digits(s) && text::number(s, 10) <= u16::MAX {
        Some(text::number(s, 10) as u16)
    } else {
        None
    }
}

/// Some digits that denote a number of 32 bits.
pub open spec fn scope_of(s: Seq<char>) -> Option<u32> {
    if s.len() > 0 && text::all_digits(s) && text::number(s, 10) <= u32::MAX {
        Some(text::number(s, 10) as u32)
    } else {
        None
    }
}

/// An IPv6 address with an optional scope after a percent sign.
pub open spec fn scoped_of(s: Seq<char>) -> Option<(Ipv6Addr, u32)> {
    let k = text::find(s, '%');
    if k == s.len() {
        match addr::ipv6_of(s) {
            Some(ip) => Some((ip, 0)),
            None => None,
        }
    } else {
        match (addr::ipv6_of(s.take(k)), scope_of(s.skip(k + 1))) {
            (Some(ip), Some(scope)) => Some((ip, scope)),
            _ => None,
        }
    }
}

/// The socket address that a text denotes.
pub open spec fn socket_of(s: Seq<char>) -> Option<SocketAddr> {
    if s.len() > 0 && s[0] == '[' {
        let k = text::find(s, ']');
        if k + 1 < s.len() && s[k + 1] == ':' {
            match (scoped_of(s.subrange(1, k)), port_of(s.skip(k + 2))) {
                (Some((ip, scope)), Some(port)) => Some(
                    SocketAddr::V6 { ip, port, flow: 0, scope },
                ),
                _ => None,
            }
        } else {
            None
        }
    } else {
        let k = text::find(s, ':');
        if k < s.len() {
            match (addr::ipv4_of(s.take(k)), port_of(s.skip(k + 1))) {
                (Some(ip), Some(port)) => Some(SocketAddr::V4 { ip, port }),
                _ => None,
            }
        } else {
            None
        }
    }
}

pub fn parse_port(chars: &[char]) -> (r: Option<u16>)
    ensures
        r == port_of(chars@),
{
    if chars.len() == 0 || !text::are_digits(chars) {
        return None;
    }
    proof {
        text::lemma_number_monotone(chars@, 10, 0);
    }
    match text::parse_number(chars, 10) {
        Some(n) => if n <= 65535 {
            Some(n as u16)
        } else {
            None
        },
        None => None,
    }
}

fn parse_scope(chars: &[char]) -> (r: Option<u32>)
    ensures
        r == scope_of(chars@),
{
    if chars.len() == 0 || !text::are_digits(chars) {
        return None;
    }
    proof {
        text::lemma_number_monotone(chars@, 10, 0);
    }
    match text::parse_number(chars, 10) {
        Some(n) => if n <= 0xffff_ffff {
            Some(n as u32)
        } else {
            None
        },
        None => None,
    }
}

fn parse_scoped(chars: &[char]) -> (r: Option<(Ipv6Addr, u32)>)
    ensures
        r == scoped_of(chars@),
{
    let k: usize = text::find_char(chars, '%');
    proof {
        text::lemma_find_bounds(chars@, '%');
    }
    if k == chars.len() {
        return match addr::parse_ipv6(chars) {
            Some(ip) => Some((ip, 0)),
            None => None,
        };
    }
    let before = text::chars_between(chars, 0, k);
    let after = text::chars_between(chars, k + 1, chars.len());
    assert(before@ == chars@.take(k as int));
    assert(after@ == chars@.skip(k as int + 1));
    match (addr::parse_ipv6(before.as_slice()), parse_scope(after.as_slice())) {
        (Some(ip), Some(scope)) => Some((ip, scope)),
        _ => None,
    }
}

pub fn parse_socket(chars: &[char]) -> (r: Option<SocketAddr>)
    ensures
        r == socket_of(chars@),
{
    let n: usize = chars.len();
    if n > 0 && chars[0] == '[' {
        let k: usize = text::find_char(chars, ']');
        proof {
            text::lemma_find_bounds(chars@, ']');
        }
        if k >= n || k + 1 >= n || chars[k + 1] != ':' {
            return None;
        }
        let inside = text::chars_between(chars, 1, k);
        let after = text::chars_between(chars, k + 2, n);
        assert(after@ == chars@.skip(k as int + 2));
        match (parse_scoped(inside.as_slice()), parse_port(after.as_slice())) {
            (Some((ip, scope)), Some(port)) => Some(SocketAddr::V6 { ip, port, flow: 0, scope }),
            _ => None,
        }
    } else {
        let k: usize = text::find_char(chars, ':');
        if k >= n {
            return None;
        }
        let before = text::chars_between(chars, 0, k);
        let after = text::chars_between(chars, k + 1, n);
        assert(before@ == chars@.take(k as int));
        assert(after@ == chars@.skip(k as int + 1));
        match (addr::parse_ipv4(before.as_slice()), parse_port(after.as_slice())) {
            (Some(ip), Some(port)) => Some(SocketAddr::V4 { ip, port }),
            _ => None,
        }
    }
}

// ---------------------------------------------------------------------
// Digits
// ---------------------------------------------------------------------

/// A number below a power of the base has no more digits than that, and no
/// leading zero where it has more than one.
proof fn lemma_digits_shape(n: nat, base: nat, len: nat)
    requires
        2 <= base <= 16,
        len >= 1,
        n < addr::power(base, len),
    ensures
        1 <= text::digits(n, base).len() <= len,
        text::digits(n, base).len() > 1 ==> text::digits(n, base)[0] != '0',
        n > 0 ==> text::digits(n, base)[0] != '0',
    decreases len,
{
    if n >= base {
        let rest = addr::power(base, (len - 1) as nat);
        assert(n / base < rest && n / base >= 1) by (nonlinear_arith)
            requires
                n < base * rest,
                n >= base,
                base >= 2,
        ;
        if len == 1 {
            assert(addr::power(base, 0) == 1);
        } else {
            lemma_digits_shape(n / base, base, (len - 1) as nat);
        }
    }
}

proof fn lemma_small_powers()
    ensures
        addr::power(10, 3) == 1000,
        addr::power(16, 4) == 65536,
{
    reveal_with_fuel(addr::power, 5);
}

/// A piece without a separator stays whole.
proof fn lemma_split_plain(s: Seq<char>, sep: char)
    requires
        forall|i: int| 0 <= i < s.len() ==> #[trigger] s[i] != sep,
    ensures
        text::split(s, sep) == seq![s],
    decreases s.len(),
{
    if s.len() > 0 {
        let t = s.drop_last();
        assert forall|i: int| 0 <= i < t.len() implies #[trigger] t[i] != sep by {
            assert(t[i] == s[i]);
        }
        lemma_split_plain(t, sep);
        assert(s.last() == s[s.len() - 1]);
        assert(t.push(s.last()) =~= s);
        assert(seq![t].drop_last().push(t.push(s.last())) =~= seq![s]);
    } else {
        assert(s =~= Seq::<char>::empty());
    }
}

/// An octet in decimal is read back.
proof fn lemma_octet(n: nat)
    requires
        n < 256,
    ensures
        addr::is_octet(text::decimal(n)),
        text::number(text::decimal(n), 10) == n,
        forall|i: int|
            0 <= i < text::decimal(n).len() ==> text::is_digit(#[trigger] text::decimal(n)[i]),
{
    text::digits_denote_their_number(n, 10);
    lemma_small_powers();
    lemma_digits_shape(n, 10, 3);
}

// ---------------------------------------------------------------------
// IPv4
// ---------------------------------------------------------------------

/// Dotted decimal text has four pieces, one for each octet, and nothing in it but
/// digits and dots.
proof fn lemma_ipv4_text(a: Ipv4Addr)
    ensures
        addr::is_ipv4_text(addr::ipv4_text(a)),
        addr::ipv4_octets(addr::ipv4_text(a)) == a.octets_spec(),
        forall|i: int|
            0 <= i < addr::ipv4_text(a).len() ==> text::is_digit(#[trigger] addr::ipv4_text(a)[i])
                || addr::ipv4_text(a)[i] == '.',
        exists|i: int| 0 <= i < addr::ipv4_text(a).len() && addr::ipv4_text(a)[i] == '.',
        addr::ipv4_text(a).len() > 0 && text::is_digit(addr::ipv4_text(a)[0]),
{
    let o = a.octets_spec();
    addr::lemma_base_digits_len(a.bits as nat, 256, 4);
    let d0 = text::decimal(o[0] as nat);
    let d1 = text::decimal(o[1] as nat);
    let d2 = text::decimal(o[2] as nat);
    let d3 = text::decimal(o[3] as nat);
    lemma_octet(o[0] as nat);
    lemma_octet(o[1] as nat);
    lemma_octet(o[2] as nat);
    lemma_octet(o[3] as nat);
    lemma_split_plain(d0, '.');
    lemma_split_plain(d1, '.');
    lemma_split_plain(d2, '.');
    lemma_split_plain(d3, '.');
    let s = addr::ipv4_text(a);
    let a1 = d0.push('.') + d1;
    let a2 = a1.push('.') + d2;
    let a3 = a2.push('.') + d3;
    assert(s =~= a3);
    text::split_distributes(d0, d1, '.');
    text::split_distributes(a1, d2, '.');
    text::split_distributes(a2, d3, '.');
    let p = text::split(s, '.');
    assert(p =~= seq![d0, d1, d2, d3]);
    assert(addr::ipv4_octets(s) =~= o);
    assert(s[d0.len() as int] == '.');
    assert(s[0] == d0[0]);
}

/// An IPv4 address is read back from its text.
pub proof fn ipv4_addresses_are_read_back(a: Ipv4Addr)
    ensures
        addr::ipv4_of(addr::ipv4_text(a)) == Some(a),
{
    lemma_ipv4_text(a);
    addr::lemma_powers();
    addr::lemma_from_base_digits(a.bits as nat, 256, 4);
}

// ---------------------------------------------------------------------
// IPv6
// ---------------------------------------------------------------------

pub open spec fn are_groups(g: Seq<int>) -> bool {
    forall|i: int| 0 <= i < g.len() ==> 0 <= #[trigger] g[i] < 65536
}

proof fn lemma_group(n: nat)
    requires
        n < 65536,
    ensures
        addr::is_hextet(text::digits(n, 16)),
        text::number(text::digits(n, 16), 16) == n,
        forall|i: int|
            0 <= i < text::digits(n, 16).len() ==> text::is_hex_digit(
                #[trigger] text::digits(n, 16)[i],
            ),
{
    text::digits_denote_their_number(n, 16);
    lemma_small_powers();
    lemma_digits_shape(n, 16, 4);
}

/// Groups with colons between them: where the colons are, and what lies between.
proof fn lemma_join_hex(g: Seq<int>)
    requires
        g.len() >= 1,
        are_groups(g),
    ensures
        addr::join_hex(g).len() >= 1,
        addr::join_hex(g)[0] != ':',
        addr::join_hex(g).last() != ':',
        forall|i: int|
            0 <= i < addr::join_hex(g).len() ==> text::is_hex_digit(#[trigger] addr::join_hex(g)[i])
                || addr::join_hex(g)[i] == ':',
        forall|i: int|
            0 <= i < addr::join_hex(g).len() - 1 ==> !(addr::join_hex(g)[i] == ':'
                && #[trigger] addr::join_hex(g)[i + 1] == ':'),
        text::split(addr::join_hex(g), ':') == g.map_values(|n: int| text::digits(n as nat, 16)),
    decreases g.len(),
{
    let d = text::digits(g.last() as nat, 16);
    assert(0 <= g[g.len() - 1] < 65536);
    lemma_group(g.last() as nat);
    lemma_split_plain(d, ':');
    let pieces = g.map_values(|n: int| text::digits(n as nat, 16));
    if g.len() == 1 {
        assert(pieces =~= seq![d]);
    } else {
        let front = g.drop_last();
        assert(are_groups(front)) by {
            assert forall|i: int| 0 <= i < front.len() implies 0 <= #[trigger] front[i] < 65536 by {
                assert(front[i] == g[i]);
            }
        }
        lemma_join_hex(front);
        let f = addr::join_hex(front);
        let s = addr::join_hex(g);
        assert(s == f.push(':') + d);
        text::split_distributes(f, d, ':');
        assert(pieces =~= front.map_values(|n: int| text::digits(n as nat, 16)) + seq![d]);
        assert(s[0] == f[0]);
        assert(s.last() == d.last());
        assert forall|i: int| 0 <= i < s.len() implies text::is_hex_digit(#[trigger] s[i]) || s[i]
            == ':' by {
            if i < f.len() {
                assert(s[i] == f[i]);
            } else if i > f.len() {
                assert(s[i] == d[i - f.len() - 1]);
            }
        }
        assert forall|i: int| 0 <= i < s.len() - 1 implies !(s[i] == ':' && #[trigger] s[i + 1]
            == ':') by {
            if i + 1 < f.len() {
                assert(s[i] == f[i] && s[i + 1] == f[i + 1]);
            } else if i + 1 == f.len() {
                assert(s[i] == f.last());
            } else {
                assert(s[i + 1] == d[i - f.len()]);
            }
        }
    }
}

/// Groups are read back from their text.
proof fn lemma_words(g: Seq<int>, tail: bool)
    requires
        g.len() >= 1,
        are_groups(g),
    ensures
        addr::words_of(addr::join_hex(g), tail) == Some(g),
{
    lemma_join_hex(g);
    let p = text::split(addr::join_hex(g), ':');
    assert forall|i: int| 0 <= i < p.len() implies addr::is_hextet(#[trigger] p[i])
        && text::number(p[i], 16) == g[i] by {
        assert(0 <= g[i] < 65536);
        lemma_group(g[i] as nat);
    }
    assert(p.last() == p[p.len() - 1]);
    let front = p.drop_last().map_values(|t: Seq<char>| text::number(t, 16));
    assert forall|i: int| 0 <= i < p.len() - 1 implies addr::is_hextet(#[trigger] p[i]) by {}
    assert(front.push(text::number(p.last(), 16)) =~= g) by {
        assert forall|i: int| 0 <= i < g.len() - 1 implies front[i] == g[i] by {
            assert(p.drop_last()[i] == p[i]);
        }
    }
}

proof fn lemma_zeros_from(g: Seq<int>, i: int)
    requires
        0 <= i <= g.len(),
    ensures
        0 <= addr::zeros_from(g, i) <= g.len() - i,
        forall|j: int| i <= j < i + addr::zeros_from(g, i) ==> #[trigger] g[j] == 0,
    decreases g.len() - i,
{
    if i < g.len() && g[i] == 0 {
        lemma_zeros_from(g, i + 1);
    }
}

/// The longest run of zeros is one.
proof fn lemma_longest_run(g: Seq<int>, i: int)
    requires
        0 <= i <= g.len(),
    ensures
        i <= addr::longest_run(g, i).0,
        0 <= addr::longest_run(g, i).1,
        addr::longest_run(g, i).0 + addr::longest_run(g, i).1 <= g.len(),
        forall|j: int|
            addr::longest_run(g, i).0 <= j < addr::longest_run(g, i).0 + addr::longest_run(g, i).1
                ==> #[trigger] g[j] == 0,
    decreases g.len() - i,
{
    if i < g.len() {
        lemma_longest_run(g, i + 1);
        lemma_zeros_from(g, i);
    }
}

/// A text that is cut by a double colon is read as its two sides.
proof fn lemma_compressed(g: Seq<int>, start: int, run: int)
    requires
        g.len() == 8,
        are_groups(g),
        0 <= start,
        run >= 2,
        start + run <= 8,
        forall|j: int| start <= j < start + run ==> #[trigger] g[j] == 0,
    ensures
        addr::ipv6_groups_of(
            addr::join_hex(g.take(start)) + "::"@ + addr::join_hex(g.skip(start + run)),
        ) == Some(g),
{
    let h = g.take(start);
    let t = g.skip(start + run);
    reveal_strlit("::");
    let a = addr::join_hex(h);
    let b = addr::join_hex(t);
    let s = a + "::"@ + b;
    assert(are_groups(h)) by {
        assert forall|i: int| 0 <= i < h.len() implies 0 <= #[trigger] h[i] < 65536 by {
            assert(h[i] == g[i]);
        }
    }
    assert(are_groups(t)) by {
        assert forall|i: int| 0 <= i < t.len() implies 0 <= #[trigger] t[i] < 65536 by {
            assert(t[i] == g[i + start + run]);
        }
    }
    if h.len() > 0 {
        lemma_join_hex(h);
        lemma_words(h, false);
    }
    if t.len() > 0 {
        lemma_join_hex(t);
        lemma_words(t, true);
    }
    let k = a.len() as int;
    assert(s[k] == ':' && s[k + 1] == ':');
    assert forall|j: int| 0 <= j < k implies !(s[j] == ':' && j + 1 < s.len()
        && #[trigger] s[j + 1] == ':') by {
        assert(s[j] == a[j]);
        if j + 1 < k {
            assert(s[j + 1] == a[j + 1]);
        } else {
            assert(a[j] == a.last());
        }
    }
    addr::lemma_double_colon(s, k);
    assert(s.take(k) =~= a);
    assert(s.skip(k + 2) =~= b);
    assert(h =~= Seq::<int>::empty() || h.len() > 0);
    assert(t =~= Seq::<int>::empty() || t.len() > 0);
    assert(h + Seq::new((8 - h.len() - t.len()) as nat, |i: int| 0int) + t =~= g);
}

/// Two octets make a group, two groups four octets.
proof fn lemma_mapped_octets(x: int, y: int)
    requires
        0 <= x < 65536,
        0 <= y < 65536,
    ensures
        ({
            let o = addr::base_digits((x * 65536 + y) as nat, 256, 4);
            o[0] * 256 + o[1] == x && o[2] * 256 + o[3] == y
        }),
{
    reveal_with_fuel(addr::base_digits, 5);
    let n = (x * 65536 + y) as nat;
    let o = addr::base_digits(n, 256, 4);
    assert(o[3] == n % 256);
    assert(o[2] == (n / 256) % 256);
    assert(o[1] == (n / 256 / 256) % 256);
    assert(o[0] == (n / 256 / 256 / 256) % 256);
}

/// A text that begins with a double colon and `ffff` ends in an IPv4 address.
proof fn lemma_mapped(g: Seq<int>)
    requires
        g.len() == 8,
        are_groups(g),
        addr::is_ipv4_mapped(g),
    ensures
        addr::ipv6_groups_of(
            "::ffff:"@ + addr::ipv4_text(Ipv4Addr { bits: (g[6] * 65536 + g[7]) as u32 }),
        ) == Some(g),
{
    reveal_strlit("::ffff:");
    let a = Ipv4Addr { bits: (g[6] * 65536 + g[7]) as u32 };
    assert(0 <= g[6] < 65536 && 0 <= g[7] < 65536);
    let v = addr::ipv4_text(a);
    let s = "::ffff:"@ + v;
    addr::lemma_double_colon(s, 0);
    assert(s.take(0) =~= Seq::<char>::empty());
    let rest = s.skip(2);
    let head = seq!['f', 'f', 'f', 'f'];
    assert(rest =~= head.push(':') + v);
    lemma_ipv4_text(a);
    lemma_split_plain(head, ':');
    lemma_split_plain(v, ':');
    text::split_distributes(head, v, ':');
    let p = text::split(rest, ':');
    assert(p =~= seq![head, v]);
    assert(addr::is_hextet(head));
    assert(text::number(head, 16) == 0xffff) by {
        reveal_with_fuel(text::number, 6);
        assert(head.drop_last() =~= seq!['f', 'f', 'f']);
        assert(head.drop_last().drop_last() =~= seq!['f', 'f']);
        assert(head.drop_last().drop_last().drop_last() =~= seq!['f']);
        assert(head.drop_last().drop_last().drop_last().drop_last() =~= Seq::<char>::empty());
    }
    assert(!addr::is_hextet(v)) by {
        let i = choose|i: int| 0 <= i < v.len() && v[i] == '.';
        assert(!text::is_hex_digit(v[i]));
    }
    assert(p.last() == v);
    assert(p.drop_last() =~= seq![head]);
    let front = p.drop_last().map_values(|t: Seq<char>| text::number(t, 16));
    assert(front =~= seq![0xffffint]);
    lemma_mapped_octets(g[6], g[7]);
    let o = a.octets_spec();
    assert(front.push(o[0] * 256 + o[1]).push(o[2] * 256 + o[3]) =~= seq![0xffffint, g[6], g[7]]);
    assert(forall|i: int| 0 <= i < p.len() - 1 ==> addr::is_hextet(#[trigger] p[i])) by {
        assert(p[0] == head);
    }
    assert(addr::words_of(rest, true) == Some(seq![0xffffint, g[6], g[7]]));
    let none = Seq::<int>::empty();
    assert(none + Seq::new(5, |i: int| 0int) + seq![0xffffint, g[6], g[7]] =~= g);
}

/// An IPv6 address is read back from its text.
pub proof fn ipv6_addresses_are_read_back(a: Ipv6Addr)
    ensures
        addr::ipv6_of(addr::ipv6_text(a)) == Some(a),
{
    let g = a.groups_spec();
    addr::lemma_base_digits_len(a.bits as nat, 65536, 8);
    addr::lemma_powers();
    addr::lemma_from_base_digits(a.bits as nat, 65536, 8);
    assert(are_groups(g));
    let run = addr::longest_run(g, 0);
    lemma_longest_run(g, 0);
    if addr::is_ipv4_mapped(g) {
        lemma_mapped(g);
    } else if run.1 >= 2 {
        lemma_compressed(g, run.0, run.1);
    } else {
        lemma_join_hex(g);
        lemma_words(g, true);
        let s = addr::join_hex(g);
        assert forall|j: int| 0 <= j < s.len() implies !(s[j] == ':' && j + 1 < s.len()
            && #[trigger] s[j + 1] == ':') by {}
        addr::lemma_double_colon(s, s.len() as int);
    }
}

/// The characters of addresses.
pub open spec fn is_address_char(c: char) -> bool {
    text::is_hex_digit(c) || c == ':' || c == '.'
}

/// Nothing but digits and dots is read as an IPv4 address.
pub proof fn lemma_ipv4_chars(s: Seq<char>)
    requires
        addr::ipv4_of(s) is Some,
    ensures
        forall|i: int| 0 <= i < s.len() ==> text::is_digit(#[trigger] s[i]) || s[i] == '.',
{
    let p = text::split(s, '.');
    let digit = |c: char| text::is_digit(c);
    assert forall|i: int, j: int| 0 <= i < p.len() && 0 <= j < p[i].len() implies digit(
        #[trigger] p[i][j],
    ) by {
        assert(addr::is_octet(p[i]));
    }
    text::pieces_cover(s, '.', digit);
    assert forall|i: int| 0 <= i < s.len() implies text::is_digit(#[trigger] s[i]) || s[i]
        == '.' by {
        assert(s[i] == '.' || digit(s[i]));
    }
}

proof fn lemma_double_colon_bounds(s: Seq<char>)
    ensures
        0 <= addr::double_colon(s) <= s.len(),
        addr::double_colon(s) < s.len() ==> s[addr::double_colon(s)] == ':',
    decreases s.len(),
{
    if s.len() > 0 && !(s.len() >= 2 && s[0] == ':' && s[1] == ':') {
        lemma_double_colon_bounds(s.drop_first());
    }
}

/// Nothing without a colon is read as an IPv6 address.
pub proof fn lemma_ipv6_has_colon(s: Seq<char>)
    requires
        addr::ipv6_of(s) is Some,
    ensures
        s.contains(':'),
{
    lemma_double_colon_bounds(s);
    let k = addr::double_colon(s);
    if k < s.len() {
        assert(s[k] == ':');
    } else if !s.contains(':') {
        assert forall|i: int| 0 <= i < s.len() implies #[trigger] s[i] != ':' by {
            assert(s.contains(s[i]));
        }
        lemma_split_plain(s, ':');
        let p = text::split(s, ':');
        assert(p.drop_last() =~= Seq::<Seq<char>>::empty());
    }
}

/// The text of an IPv6 address has nothing in it but digits, letters, colons and
/// dots.
pub proof fn lemma_ipv6_text_chars(a: Ipv6Addr)
    ensures
        forall|i: int|
            0 <= i < addr::ipv6_text(a).len() ==> is_address_char(
                #[trigger] addr::ipv6_text(a)[i],
            ),
{
    let g = a.groups_spec();
    addr::lemma_base_digits_len(a.bits as nat, 65536, 8);
    assert(are_groups(g));
    let run = addr::longest_run(g, 0);
    lemma_longest_run(g, 0);
    let s = addr::ipv6_text(a);
    if addr::is_ipv4_mapped(g) {
        reveal_strlit("::ffff:");
        let v = Ipv4Addr { bits: (g[6] * 65536 + g[7]) as u32 };
        lemma_ipv4_text(v);
        assert forall|i: int| 0 <= i < s.len() implies is_address_char(#[trigger] s[i]) by {
            if i >= 7 {
                assert(s[i] == addr::ipv4_text(v)[i - 7]);
            }
        }
    } else if run.1 >= 2 {
        reveal_strlit("::");
        let h = g.take(run.0);
        let t = g.skip(run.0 + run.1);
        assert forall|i: int| 0 <= i < h.len() implies 0 <= #[trigger] h[i] < 65536 by {
            assert(h[i] == g[i]);
        }
        assert forall|i: int| 0 <= i < t.len() implies 0 <= #[trigger] t[i] < 65536 by {
            assert(t[i] == g[i + run.0 + run.1]);
        }
        if h.len() > 0 {
            lemma_join_hex(h);
        }
        if t.len() > 0 {
            lemma_join_hex(t);
        }
        let x = addr::join_hex(h);
        assert forall|i: int| 0 <= i < s.len() implies is_address_char(#[trigger] s[i]) by {
            if i < x.len() {
                assert(s[i] == x[i]);
            } else if i >= x.len() + 2 {
                assert(s[i] == addr::join_hex(t)[i - x.len() - 2]);
            }
        }
    } else {
        lemma_join_hex(g);
    }
}

// ---------------------------------------------------------------------
// Both
// ---------------------------------------------------------------------

proof fn lemma_port(port: u16)
    ensures
        port_of(text::decimal(port as nat)) == Some(port),
{
    text::digits_denote_their_number(port as nat, 10);
}

/// Whether a text says all that there is to a socket address: flow information is not
/// written.
pub open spec fn is_writable(a: SocketAddr) -> bool {
    a matches SocketAddr::V6 { flow, .. } ==> flow == 0
}

/// An IPv6 address with its scope is read back.
proof fn lemma_scoped(ip: Ipv6Addr, scope: u32)
    ensures
        scoped_of(addr::ipv6_text(ip) + addr::scope_text(scope)) == Some((ip, scope)),
        forall|i: int|
            0 <= i < (addr::ipv6_text(ip) + addr::scope_text(scope)).len() ==> #[trigger] (
            addr::ipv6_text(ip) + addr::scope_text(scope))[i] != ']',
{
    let v = addr::ipv6_text(ip);
    let s = v + addr::scope_text(scope);
    lemma_ipv6_text_chars(ip);
    ipv6_addresses_are_read_back(ip);
    text::digits_denote_their_number(scope as nat, 10);
    let d = text::decimal(scope as nat);
    let k = v.len() as int;
    assert forall|j: int| 0 <= j < k implies s[j] != '%' && s[j] != ']' by {
        assert(s[j] == v[j]);
    }
    if scope == 0 {
        assert(s =~= v);
        text::lemma_find(s, '%', k);
    } else {
        assert(s[k] == '%');
        text::lemma_find(s, '%', k);
        assert(s.take(k) =~= v);
        assert(s.skip(k + 1) =~= d);
        assert forall|j: int| k < j < s.len() implies s[j] != ']' by {
            assert(s[j] == d[j - k - 1]);
            assert(text::is_digit(d[j - k - 1]));
        }
    }
}

/// A socket address without flow information is read back from its text.
pub proof fn socket_addresses_are_read_back(a: SocketAddr)
    requires
        is_writable(a),
    ensures
        socket_of(addr::socket_text(a)) == Some(a),
{
    let s = addr::socket_text(a);
    let number = addr::socket_port(a);
    let port = text::decimal(number as nat);
    lemma_port(number);
    match a {
        SocketAddr::V4 { ip, .. } => {
            let v = addr::ipv4_text(ip);
            lemma_ipv4_text(ip);
            ipv4_addresses_are_read_back(ip);
            let k = v.len() as int;
            assert forall|j: int| 0 <= j < k implies s[j] != ':' by {
                assert(s[j] == v[j]);
            }
            assert(s[k] == ':');
            text::lemma_find(s, ':', k);
            assert(s[0] == v[0]);
            assert(s.take(k) =~= v);
            assert(s.skip(k + 1) =~= port);
        },
        SocketAddr::V6 { ip, scope, .. } => {
            let v = addr::ipv6_text(ip) + addr::scope_text(scope);
            lemma_scoped(ip, scope);
            let k = v.len() as int + 1;
            assert forall|j: int| 0 <= j < k implies s[j] != ']' by {
                if j > 0 {
                    assert(s[j] == v[j - 1]);
                }
            }
            assert(s[k] == ']');
            text::lemma_find(s, ']', k);
            assert(s.subrange(1, k) =~= v);
            assert(s.skip(k + 2) =~= port);
        },
    }
}

/// A port is digits that fit; so is a scope.
pub proof fn ports_and_scopes_are_numbers(s: Seq<char>)
    ensures
        ({
            let digits = s.len() > 0 && forall|i: int|
                0 <= i < s.len() ==> '0' <= #[trigger] s[i] <= '9';
            &&& port_of(s) is Some <==> digits && text::number(s, 10) <= 65535
            &&& port_of(s) matches Some(p) ==> p == text::number(s, 10)
            &&& scope_of(s) is Some <==> digits && text::number(s, 10) <= 4294967295
            &&& scope_of(s) matches Some(p) ==> p == text::number(s, 10)
        }),
{
    text::lemma_number_monotone(s, 10, 0);
    if text::all_digits(s) {
        assert forall|i: int| 0 <= i < s.len() implies '0' <= #[trigger] s[i] <= '9' by {
            assert(text::is_digit(s[i]));
        }
    }
}

/// A socket address is an address of the older kind, a colon and a port, or one of the newer
/// kind in brackets, with its scope behind a percent sign or none, a colon and a port.
pub proof fn socket_addresses_are_read(host: Seq<char>, port: Seq<char>)
    ensures
        !host.contains(':') && (host.len() == 0 || host[0] != '[') ==> socket_of(
            host.push(':') + port,
        ) == (if addr::ipv4_of(host) is Some && port_of(port) is Some {
            Some(SocketAddr::V4 { ip: addr::ipv4_of(host)->Some_0, port: port_of(port)->Some_0 })
        } else {
            None
        }),
        !host.contains(']') ==> socket_of(seq!['['] + host + seq![']', ':'] + port) == (
        if scoped_of(host) is Some && port_of(port) is Some {
            Some(
                SocketAddr::V6 {
                    ip: scoped_of(host)->Some_0.0,
                    port: port_of(port)->Some_0,
                    flow: 0,
                    scope: scoped_of(host)->Some_0.1,
                },
            )
        } else {
            None
        }),
{
    let n = host.len() as int;
    if !host.contains(':') && (n == 0 || host[0] != '[') {
        let s = host.push(':') + port;
        assert forall|j: int| 0 <= j < n implies s[j] != ':' by {
            assert(s[j] == host[j]);
            assert(host.contains(host[j]));
        }
        text::lemma_find(s, ':', n);
        assert(s.take(n) =~= host);
        assert(s.skip(n + 1) =~= port);
        assert(s[0] != '[');
    }
    if !host.contains(']') {
        let s = seq!['['] + host + seq![']', ':'] + port;
        assert forall|j: int| 0 <= j < n + 1 implies s[j] != ']' by {
            if j > 0 {
                assert(s[j] == host[j - 1]);
                assert(host.contains(host[j - 1]));
            }
        }
        text::lemma_find(s, ']', n + 1);
        assert(s.subrange(1, n + 1) =~= host);
        assert(s.skip(n + 3) =~= port);
    }
}

/// An address without a percent sign has no scope; one with it has the scope that follows.
pub proof fn scopes_follow_the_sign(ip: Seq<char>, scope: Seq<char>)
    requires
        !ip.contains('%'),
    ensures
        scoped_of(ip) == (match addr::ipv6_of(ip) {
            Some(a) => Some((a, 0u32)),
            None => None,
        }),
        scoped_of(ip.push('%') + scope) == (match (addr::ipv6_of(ip), scope_of(scope)) {
            (Some(a), Some(n)) => Some((a, n)),
            _ => None,
        }),
{
    text::lemma_find_bounds(ip, '%');
    let s = ip.push('%') + scope;
    let n = ip.len() as int;
    assert forall|j: int| 0 <= j < n implies s[j] != '%' by {
        assert(s[j] == ip[j]);
        assert(ip.contains(ip[j]));
    }
    text::lemma_find(s, '%', n);
    assert(s.take(n) =~= ip);
    assert(s.skip(n + 1) =~= scope);
}

/// No text but the one in which it is written is an address of the older kind: there are no
/// leading zeros, signs, or missing parts.
pub proof fn older_addresses_have_one_text(s: Seq<char>)
    requires
        addr::ipv4_of(s) is Some,
    ensures
        addr::ipv4_text(addr::ipv4_of(s)->Some_0) == s,
{
    let p = text::split(s, '.');
    let o = addr::ipv4_octets(s);
    assert forall|i: int| 0 <= i < 4 implies 0 <= #[trigger] o[i] < 256 && text::decimal(
        o[i] as nat,
    ) == p[i] by {
        assert(addr::is_octet(p[i]));
        text::lemma_number_monotone(p[i], 10, 0);
        lemma_plain_number(p[i]);
    }
    addr::lemma_base_digits_of_number(o, 256);
    addr::lemma_from_digits_bound(o, 256);
    addr::lemma_powers();
    let a = addr::ipv4_of(s)->Some_0;
    assert(a.octets_spec() == o);
    text::joined_pieces_are_whole(s, '.');
    assert(p =~= seq![p[0], p[1], p[2], p[3]]);
    reveal_with_fuel(text::join, 5);
    let t = addr::ipv4_text(a);
    assert(p.drop_last().drop_last().drop_last() =~= seq![p[0]]);
    assert(p.drop_last().drop_last() =~= seq![p[0], p[1]]);
    assert(p.drop_last() =~= seq![p[0], p[1], p[2]]);
    assert(t =~= s);
}

/// Digits without a leading zero are the digits of their number.
proof fn lemma_plain_number(t: Seq<char>)
    requires
        t.len() > 0,
        text::all_digits(t),
        t.len() > 1 ==> t[0] != '0',
    ensures
        text::number(t, 10) >= 0,
        text::decimal(text::number(t, 10) as nat) == t,
        t[0] != '0' ==> text::number(t, 10) > 0,
    decreases t.len(),
{
    let front = t.drop_last();
    let d = text::digit_value(t.last());
    assert(text::is_digit(t.last()));
    if t.len() == 1 {
        assert(text::number(front, 10) == 0);
        text::numbers_are_written_in_digits(d as nat);
        assert(t =~= seq![t[0]]);
    } else {
        assert forall|i: int| 0 <= i < front.len() implies text::is_digit(#[trigger] front[i]) by {
            assert(front[i] == t[i]);
        }
        assert(front[0] == t[0]);
        lemma_plain_number(front);
        let n = text::number(t, 10) as nat;
        assert(n == text::number(front, 10) * 10 + d);
        assert(n / 10 == text::number(front, 10));
        assert(n % 10 == d);
        text::numbers_are_written_in_digits(n);
        assert(front.push(t.last()) =~= t);
    }
}

} // verus!

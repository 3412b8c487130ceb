//! Text and byte-string primitives: the vocabulary in which the protocol
//! modules state their contracts.
//!
//! Strings are modelled as `Seq<char>`, wire data as `Seq<u8>`.

use vstd::prelude::*;

verus! {

// ---------------------------------------------------------------------
// Models
// ---------------------------------------------------------------------

/// Each byte read as the character with the same code.
pub open spec fn ascii_chars(bytes: Seq<u8>) -> Seq<char> {
    bytes.map_values(|b: u8| b as char)
}

pub open spec fn lower_char(c: char) -> char {
    if 'A' <= c <= 'Z' {
        (c as u8 + 32) as char
    } else {
        c
    }
}

/// ASCII lowercase; every other character is kept.
pub open spec fn lower(s: Seq<char>) -> Seq<char> {
    s.map_values(|c: char| lower_char(c))
}

pub open spec fn eq_ignore_case(a: Seq<char>, b: Seq<char>) -> bool {
    lower(a) == lower(b)
}

pub open spec fn is_digit(c: char) -> bool {
    '0' <= c <= '9'
}

pub open spec fn is_letter(c: char) -> bool {
    'a' <= c <= 'z' || 'A' <= c <= 'Z'
}

pub open spec fn is_alphanumeric(c: char) -> bool {
    is_digit(c) || is_letter(c)
}

pub open spec fn is_hex_digit(c: char) -> bool {
    is_digit(c) || 'a' <= c <= 'f' || 'A' <= c <= 'F'
}

/// ASCII control characters.
pub open spec fn is_control(c: char) -> bool {
    c as u32 <= 0x1f || c as u32 == 0x7f
}

/// Unicode control characters.
pub open spec fn is_unicode_control(c: char) -> bool {
    c as u32 <= 0x1f || 0x7f <= c as u32 <= 0x9f
}

/// The characters with the Unicode `White_Space` property.
pub open spec fn is_whitespace(c: char) -> bool {
    let u = c as u32;
    ||| 0x09 <= u <= 0x0d
    ||| u == 0x20
    ||| u == 0x85
    ||| u == 0xa0
    ||| u == 0x1680
    ||| 0x2000 <= u <= 0x200a
    ||| u == 0x2028
    ||| u == 0x2029
    ||| u == 0x202f
    ||| u == 0x205f
    ||| u == 0x3000
}

/// The pieces between the separators, in order; there is always one more piece
/// than there are separators.
pub open spec fn split<A>(s: Seq<A>, sep: A) -> Seq<Seq<A>>
    decreases s.len(),
{
    if s.len() == 0 {
        seq![Seq::<A>::empty()]
    } else {
        let before = split(s.drop_last(), sep);
        if s.last() == sep {
            before.push(Seq::<A>::empty())
        } else {
            before.drop_last().push(before.last().push(s.last()))
        }
    }
}

/// The sequence without its longest prefix of matching elements.
pub open spec fn trim_start<A>(s: Seq<A>, blank: spec_fn(A) -> bool) -> Seq<A>
    decreases s.len(),
{
    if s.len() > 0 && blank(s[0]) {
        trim_start(s.drop_first(), blank)
    } else {
        s
    }
}

/// The sequence without its longest suffix of matching elements.
pub open spec fn trim_end<A>(s: Seq<A>, blank: spec_fn(A) -> bool) -> Seq<A>
    decreases s.len(),
{
    if s.len() > 0 && blank(s.last()) {
        trim_end(s.drop_last(), blank)
    } else {
        s
    }
}

pub open spec fn trim_where<A>(s: Seq<A>, blank: spec_fn(A) -> bool) -> Seq<A> {
    trim_end(trim_start(s, blank), blank)
}

/// The text without surrounding whitespace.
pub open spec fn trim(s: Seq<char>) -> Seq<char> {
    trim_where(s, |c: char| is_whitespace(c))
}

/// Where the first `x` stands, or the length of `s` where there is none.
pub open spec fn find<A>(s: Seq<A>, x: A) -> int
    decreases s.len(),
{
    if s.len() == 0 || s[0] == x {
        0
    } else {
        1 + find(s.drop_first(), x)
    }
}

pub open spec fn digit_value(c: char) -> int {
    if is_digit(c) {
        c as int - '0' as int
    } else if 'a' <= c <= 'f' {
        c as int - 'a' as int + 10
    } else if 'A' <= c <= 'F' {
        c as int - 'A' as int + 10
    } else {
        0
    }
}

/// The number that the digits denote in the given base.
pub open spec fn number(s: Seq<char>, base: int) -> int
    decreases s.len(),
{
    if s.len() == 0 {
        0
    } else {
        number(s.drop_last(), base) * base + digit_value(s.last())
    }
}

pub open spec fn all_digits(s: Seq<char>) -> bool {
    forall|i: int| 0 <= i < s.len() ==> is_digit(#[trigger] s[i])
}

pub open spec fn all_hex_digits(s: Seq<char>) -> bool {
    forall|i: int| 0 <= i < s.len() ==> is_hex_digit(#[trigger] s[i])
}

pub open spec fn digit_char(d: int) -> char {
    if d < 10 {
        ('0' as int + d) as char
    } else {
        ('a' as int + d - 10) as char
    }
}

/// The digits of `n` in the given base, without leading zeros.
pub open spec fn digits(n: nat, base: nat) -> Seq<char>
    decreases n,
    when base >= 2
{
    if n < base {
        seq![digit_char(n as int)]
    } else {
        proof {
            assert(n / base < n) by (nonlinear_arith)
                requires
                    n >= base,
                    base >= 2,
            ;
        }
        digits(n / base, base).push(digit_char((n % base) as int))
    }
}

pub open spec fn decimal(n: nat) -> Seq<char> {
    digits(n, 10)
}

/// Whether `s` is one of the listed texts.
pub open spec fn is_one_of(s: Seq<char>, list: Seq<Seq<char>>) -> bool {
    exists|i: int| 0 <= i < list.len() && s == #[trigger] list[i]
}

// ---------------------------------------------------------------------
// Conversions
// ---------------------------------------------------------------------

/// The characters of a string, one by one.
pub fn to_chars(s: &str) -> (r: Vec<char>)
    ensures
        r@ == s@,
{
    let mut v: Vec<char> = Vec::new();
    for c in it: s.chars()
        invariant
            it.seq() == s@,
            v@ == s@.take(it.index() as int),
    {
        v.push(c);
        assert(v@ == s@.take(it.index() as int + 1));
    }
    assert(s@.take(s@.len() as int) == s@);
    v
}

/// Appends one character, as `String::push` documents it.
#[verifier::external_body]
fn push_char(s: &mut String, c: char)
    ensures
        final(s)@ == old(s)@.push(c),
{
    s.push(c)
}

/// The string that consists of the given characters.
pub fn from_chars(chars: &[char]) -> (r: String)
    ensures
        r@ == chars@,
{
    let mut s = String::new();
    let mut i: usize = 0;
    while i < chars.len()
        invariant
            i <= chars@.len(),
            s@ == chars@.take(i as int),
        decreases chars.len() - i,
    {
        push_char(&mut s, chars[i]);
        i += 1;
        assert(chars@.take(i as int) == chars@.take(i as int - 1).push(chars@[i as int - 1]));
    }
    assert(chars@.take(i as int) == chars@);
    s
}

/// The bytes as characters with the same codes.
pub fn ascii_to_chars(bytes: &[u8]) -> (r: Vec<char>)
    ensures
        r@ == ascii_chars(bytes@),
{
    let mut v: Vec<char> = Vec::new();
    let mut i: usize = 0;
    while i < bytes.len()
        invariant
            i <= bytes@.len(),
            v@ == ascii_chars(bytes@).take(i as int),
        decreases bytes.len() - i,
    {
        v.push(bytes[i] as char);
        i += 1;
        assert(v@ == ascii_chars(bytes@).take(i as int));
    }
    assert(ascii_chars(bytes@).take(i as int) == ascii_chars(bytes@));
    v
}

/// The string whose characters have the codes of the given bytes.
pub fn from_ascii(bytes: &[u8]) -> (r: String)
    ensures
        r@ == ascii_chars(bytes@),
{
    let chars = ascii_to_chars(bytes);
    from_chars(chars.as_slice())
}

/// A copy of the bytes in the range.
pub fn bytes_between(bytes: &[u8], from: usize, to: usize) -> (r: Vec<u8>)
    requires
        from <= to <= bytes@.len(),
    ensures
        r@ == bytes@.subrange(from as int, to as int),
{
    let mut v: Vec<u8> = Vec::new();
    let mut i: usize = from;
    while i < to
        invariant
            from <= i <= to <= bytes@.len(),
            v@ == bytes@.subrange(from as int, i as int),
        decreases to - i,
    {
        v.push(bytes[i]);
        i += 1;
        assert(v@ == bytes@.subrange(from as int, i as int));
    }
    v
}

/// A copy of the characters in the range.
pub fn chars_between(chars: &[char], from: usize, to: usize) -> (r: Vec<char>)
    requires
        from <= to <= chars@.len(),
    ensures
        r@ == chars@.subrange(from as int, to as int),
{
    let mut v: Vec<char> = Vec::new();
    let mut i: usize = from;
    while i < to
        invariant
            from <= i <= to <= chars@.len(),
            v@ == chars@.subrange(from as int, i as int),
        decreases to - i,
    {
        v.push(chars[i]);
        i += 1;
        assert(v@ == chars@.subrange(from as int, i as int));
    }
    v
}

/// Appends the UTF-8 bytes of the text.
pub fn push_text(out: &mut Vec<u8>, s: &str)
    ensures
        final(out)@ == old(out)@ + vstd::utf8::encode_utf8(s@),
{
    push_bytes(out, s.as_bytes());
}

/// Appends the bytes.
pub fn push_bytes(out: &mut Vec<u8>, bytes: &[u8])
    ensures
        final(out)@ == old(out)@ + bytes@,
{
    let ghost before = out@;
    let mut i: usize = 0;
    while i < bytes.len()
        invariant
            i <= bytes@.len(),
            out@ == before + bytes@.take(i as int),
        decreases bytes.len() - i,
    {
        out.push(bytes[i]);
        i += 1;
        assert(out@ == before + bytes@.take(i as int));
    }
    assert(bytes@.take(i as int) == bytes@);
}

/// Appends the characters.
pub fn push_chars(out: &mut Vec<char>, chars: &[char])
    ensures
        final(out)@ == old(out)@ + chars@,
{
    let ghost before = out@;
    let mut i: usize = 0;
    while i < chars.len()
        invariant
            i <= chars@.len(),
            out@ == before + chars@.take(i as int),
        decreases chars.len() - i,
    {
        out.push(chars[i]);
        i += 1;
        assert(out@ == before + chars@.take(i as int));
    }
    assert(chars@.take(i as int) == chars@);
}

/// Appends the text.
pub fn push_str(out: &mut Vec<char>, s: &str)
    ensures
        final(out)@ == old(out)@ + s@,
{
    let chars = to_chars(s);
    push_chars(out, chars.as_slice());
}

// ---------------------------------------------------------------------
// Comparisons
// ---------------------------------------------------------------------

pub fn same_bytes(a: &[u8], b: &[u8]) -> (r: bool)
    ensures
        r == (a@ == b@),
{
    if a.len() != b.len() {
        return false;
    }
    let mut i: usize = 0;
    while i < a.len()
        invariant
            i <= a@.len() == b@.len(),
            a@.take(i as int) == b@.take(i as int),
        decreases a.len() - i,
    {
        if a[i] != b[i] {
            return false;
        }
        i += 1;
        assert(a@.take(i as int) == a@.take(i as int - 1).push(a@[i as int - 1]));
        assert(b@.take(i as int) == b@.take(i as int - 1).push(b@[i as int - 1]));
    }
    assert(a@.take(i as int) == a@);
    assert(b@.take(i as int) == b@);
    true
}

pub fn same_chars(a: &[char], b: &[char]) -> (r: bool)
    ensures
        r == (a@ == b@),
{
    if a.len() != b.len() {
        return false;
    }
    let mut i: usize = 0;
    while i < a.len()
        invariant
            i <= a@.len() == b@.len(),
            a@.take(i as int) == b@.take(i as int),
        decreases a.len() - i,
    {
        if a[i] != b[i] {
            return false;
        }
        i += 1;
        assert(a@.take(i as int) == a@.take(i as int - 1).push(a@[i as int - 1]));
        assert(b@.take(i as int) == b@.take(i as int - 1).push(b@[i as int - 1]));
    }
    assert(a@.take(i as int) == a@);
    assert(b@.take(i as int) == b@);
    true
}

pub fn same_text(a: &str, b: &str) -> (r: bool)
    ensures
        r == (a@ == b@),
{
    let x = to_chars(a);
    let y = to_chars(b);
    same_chars(x.as_slice(), y.as_slice())
}

/// Whether the bytes spell the text.
pub fn bytes_are(bytes: &[u8], text: &str) -> (r: bool)
    ensures
        r == (ascii_chars(bytes@) == text@),
{
    let x = ascii_to_chars(bytes);
    let y = to_chars(text);
    same_chars(x.as_slice(), y.as_slice())
}

/// Whether the bytes begin with the text.
pub fn bytes_start_with(bytes: &[u8], text: &str) -> (r: bool)
    ensures
        r == text@.is_prefix_of(ascii_chars(bytes@)),
{
    let x = ascii_to_chars(bytes);
    starts_with(x.as_slice(), text)
}

pub fn starts_with(chars: &[char], prefix: &str) -> (r: bool)
    ensures
        r == prefix@.is_prefix_of(chars@),
{
    let p = to_chars(prefix);
    if p.len() > chars.len() {
        return false;
    }
    let mut i: usize = 0;
    while i < p.len()
        invariant
            i <= p@.len() <= chars@.len(),
            p@ == prefix@,
            forall|j: int| 0 <= j < i ==> p@[j] == chars@[j],
        decreases p.len() - i,
    {
        if p[i] != chars[i] {
            assert(chars@.subrange(0, p@.len() as int)[i as int] == chars@[i as int]);
            return false;
        }
        i += 1;
    }
    assert(prefix@ == chars@.subrange(0, prefix@.len() as int));
    true
}

pub fn text_starts_with(s: &str, prefix: &str) -> (r: bool)
    ensures
        r == prefix@.is_prefix_of(s@),
{
    let chars = to_chars(s);
    starts_with(chars.as_slice(), prefix)
}

pub fn lower_of(c: char) -> (r: char)
    ensures
        r == lower_char(c),
{
    if 'A' <= c && c <= 'Z' {
        (c as u8 + 32) as char
    } else {
        c
    }
}

pub fn lower_chars(chars: &[char]) -> (r: Vec<char>)
    ensures
        r@ == lower(chars@),
{
    let mut v: Vec<char> = Vec::new();
    let mut i: usize = 0;
    while i < chars.len()
        invariant
            i <= chars@.len(),
            v@ == lower(chars@).take(i as int),
        decreases chars.len() - i,
    {
        v.push(lower_of(chars[i]));
        i += 1;
        assert(v@ == lower(chars@).take(i as int));
    }
    assert(lower(chars@).take(i as int) == lower(chars@));
    v
}

pub fn to_lower(s: &str) -> (r: String)
    ensures
        r@ == lower(s@),
{
    let chars = to_chars(s);
    let low = lower_chars(chars.as_slice());
    from_chars(low.as_slice())
}

pub fn same_ignore_case(a: &str, b: &str) -> (r: bool)
    ensures
        r == eq_ignore_case(a@, b@),
{
    let x = to_chars(a);
    let y = to_chars(b);
    let lx = lower_chars(x.as_slice());
    let ly = lower_chars(y.as_slice());
    same_chars(lx.as_slice(), ly.as_slice())
}

pub fn chars_are_ignoring_case(a: &[char], b: &str) -> (r: bool)
    ensures
        r == eq_ignore_case(a@, b@),
{
    let y = to_chars(b);
    let lx = lower_chars(a);
    let ly = lower_chars(y.as_slice());
    same_chars(lx.as_slice(), ly.as_slice())
}

// ---------------------------------------------------------------------
// Character classes
// ---------------------------------------------------------------------

pub fn char_is_digit(c: char) -> (r: bool)
    ensures
        r == is_digit(c),
{
    '0' <= c && c <= '9'
}

pub fn char_is_alphanumeric(c: char) -> (r: bool)
    ensures
        r == is_alphanumeric(c),
{
    ('0' <= c && c <= '9') || ('a' <= c && c <= 'z') || ('A' <= c && c <= 'Z')
}

pub fn char_is_hex_digit(c: char) -> (r: bool)
    ensures
        r == is_hex_digit(c),
{
    ('0' <= c && c <= '9') || ('a' <= c && c <= 'f') || ('A' <= c && c <= 'F')
}

pub fn char_is_control(c: char) -> (r: bool)
    ensures
        r == is_control(c),
{
    c as u32 <= 0x1f || c as u32 == 0x7f
}

pub fn char_is_unicode_control(c: char) -> (r: bool)
    ensures
        r == is_unicode_control(c),
{
    c as u32 <= 0x1f || (0x7f <= c as u32 && c as u32 <= 0x9f)
}

pub fn char_is_whitespace(c: char) -> (r: bool)
    ensures
        r == is_whitespace(c),
{
    let u: u32 = c as u32;
    (0x09 <= u && u <= 0x0d) || u == 0x20 || u == 0x85 || u == 0xa0 || u == 0x1680 || (0x2000 <= u
        && u <= 0x200a) || u == 0x2028 || u == 0x2029 || u == 0x202f || u == 0x205f || u == 0x3000
}

pub fn are_digits(chars: &[char]) -> (r: bool)
    ensures
        r == all_digits(chars@),
{
    let mut i: usize = 0;
    while i < chars.len()
        invariant
            i <= chars@.len(),
            forall|j: int| 0 <= j < i ==> is_digit(#[trigger] chars@[j]),
        decreases chars.len() - i,
    {
        if !char_is_digit(chars[i]) {
            return false;
        }
        i += 1;
    }
    true
}

pub fn are_hex_digits(chars: &[char]) -> (r: bool)
    ensures
        r == all_hex_digits(chars@),
{
    let mut i: usize = 0;
    while i < chars.len()
        invariant
            i <= chars@.len(),
            forall|j: int| 0 <= j < i ==> is_hex_digit(#[trigger] chars@[j]),
        decreases chars.len() - i,
    {
        if !char_is_hex_digit(chars[i]) {
            return false;
        }
        i += 1;
    }
    true
}

// ---------------------------------------------------------------------
// Searching, splitting, trimming
// ---------------------------------------------------------------------

pub proof fn lemma_find<A>(s: Seq<A>, x: A, i: int)
    requires
        0 <= i <= s.len(),
        forall|j: int| 0 <= j < i ==> s[j] != x,
        i < s.len() ==> s[i] == x,
    ensures
        find(s, x) == i,
    decreases s.len(),
{
    if s.len() > 0 && i > 0 {
        assert(s[0] != x);
        lemma_find(s.drop_first(), x, i - 1);
    }
}

pub proof fn lemma_find_bounds<A>(s: Seq<A>, x: A)
    ensures
        0 <= find(s, x) <= s.len(),
        find(s, x) < s.len() ==> s[find(s, x)] == x,
        forall|j: int| 0 <= j < find(s, x) ==> s[j] != x,
        s.contains(x) <==> find(s, x) < s.len(),
    decreases s.len(),
{
    if s.len() > 0 && s[0] != x {
        let t = s.drop_first();
        lemma_find_bounds(t, x);
        assert forall|j: int| 0 <= j < find(s, x) implies s[j] != x by {
            if j > 0 {
                assert(t[j - 1] == s[j]);
            }
        }
        if find(s, x) < s.len() {
            assert(t[find(t, x)] == s[find(t, x) + 1]);
        }
    }
}

pub fn find_byte(bytes: &[u8], x: u8) -> (r: usize)
    ensures
        r == find(bytes@, x),
        r <= bytes@.len(),
{
    let mut i: usize = 0;
    while i < bytes.len()
        invariant
            i <= bytes@.len(),
            forall|j: int| 0 <= j < i ==> bytes@[j] != x,
        decreases bytes.len() - i,
    {
        if bytes[i] == x {
            proof {
                lemma_find(bytes@, x, i as int);
            }
            return i;
        }
        i += 1;
    }
    proof {
        lemma_find(bytes@, x, i as int);
    }
    i
}

pub fn find_char(chars: &[char], x: char) -> (r: usize)
    ensures
        r == find(chars@, x),
        r <= chars@.len(),
{
    let mut i: usize = 0;
    while i < chars.len()
        invariant
            i <= chars@.len(),
            forall|j: int| 0 <= j < i ==> chars@[j] != x,
        decreases chars.len() - i,
    {
        if chars[i] == x {
            proof {
                lemma_find(chars@, x, i as int);
            }
            return i;
        }
        i += 1;
    }
    proof {
        lemma_find(chars@, x, i as int);
    }
    i
}

pub fn contains_char(chars: &[char], x: char) -> (r: bool)
    ensures
        r == chars@.contains(x),
{
    let i: usize = find_char(chars, x);
    proof {
        lemma_find_bounds(chars@, x);
    }
    i < chars.len()
}

pub proof fn lemma_split_nonempty<A>(s: Seq<A>, sep: A)
    ensures
        split(s, sep).len() >= 1,
    decreases s.len(),
{
    if s.len() > 0 {
        lemma_split_nonempty(s.drop_last(), sep);
    }
}

pub fn split_chars(chars: &[char], sep: char) -> (r: Vec<Vec<char>>)
    ensures
        r@.map_values(|p: Vec<char>| p@) == split(chars@, sep),
{
    let mut pieces: Vec<Vec<char>> = Vec::new();
    let mut current: Vec<char> = Vec::new();
    let mut i: usize = 0;
    assert(chars@.take(0) == Seq::<char>::empty());
    assert(pieces@.map_values(|p: Vec<char>| p@).push(current@) == split(chars@.take(0), sep));
    while i < chars.len()
        invariant
            i <= chars@.len(),
            pieces@.map_values(|p: Vec<char>| p@).push(current@) == split(
                chars@.take(i as int),
                sep,
            ),
        decreases chars.len() - i,
    {
        let ghost before = pieces@.map_values(|p: Vec<char>| p@);
        let ghost piece = current@;
        assert(chars@.take(i as int + 1).drop_last() == chars@.take(i as int));
        assert(before.push(piece).drop_last() == before);
        if chars[i] == sep {
            pieces.push(current);
            current = Vec::new();
            assert(pieces@.map_values(|p: Vec<char>| p@) == before.push(piece));
        } else {
            current.push(chars[i]);
        }
        i += 1;
        assert(pieces@.map_values(|p: Vec<char>| p@).push(current@) == split(
            chars@.take(i as int),
            sep,
        ));
    }
    assert(chars@.take(i as int) == chars@);
    let ghost before = pieces@.map_values(|p: Vec<char>| p@);
    let ghost piece = current@;
    pieces.push(current);
    assert(pieces@.map_values(|p: Vec<char>| p@) == before.push(piece));
    pieces
}

pub fn split_bytes(bytes: &[u8], sep: u8) -> (r: Vec<Vec<u8>>)
    ensures
        r@.map_values(|p: Vec<u8>| p@) == split(bytes@, sep),
{
    let mut pieces: Vec<Vec<u8>> = Vec::new();
    let mut current: Vec<u8> = Vec::new();
    let mut i: usize = 0;
    assert(bytes@.take(0) == Seq::<u8>::empty());
    assert(pieces@.map_values(|p: Vec<u8>| p@).push(current@) == split(bytes@.take(0), sep));
    while i < bytes.len()
        invariant
            i <= bytes@.len(),
            pieces@.map_values(|p: Vec<u8>| p@).push(current@) == split(bytes@.take(i as int), sep),
        decreases bytes.len() - i,
    {
        let ghost before = pieces@.map_values(|p: Vec<u8>| p@);
        let ghost piece = current@;
        assert(bytes@.take(i as int + 1).drop_last() == bytes@.take(i as int));
        assert(before.push(piece).drop_last() == before);
        if bytes[i] == sep {
            pieces.push(current);
            current = Vec::new();
            assert(pieces@.map_values(|p: Vec<u8>| p@) == before.push(piece));
        } else {
            current.push(bytes[i]);
        }
        i += 1;
        assert(pieces@.map_values(|p: Vec<u8>| p@).push(current@) == split(
            bytes@.take(i as int),
            sep,
        ));
    }
    assert(bytes@.take(i as int) == bytes@);
    let ghost before = pieces@.map_values(|p: Vec<u8>| p@);
    let ghost piece = current@;
    pieces.push(current);
    assert(pieces@.map_values(|p: Vec<u8>| p@) == before.push(piece));
    pieces
}

/// The characters without surrounding whitespace.
pub fn trim_chars(chars: &[char]) -> (r: Vec<char>)
    ensures
        r@ == trim(chars@),
{
    let ghost blank = |c: char| is_whitespace(c);
    let mut from: usize = 0;
    assert(chars@.skip(0) == chars@);
    while from < chars.len() && char_is_whitespace(chars[from])
        invariant
            from <= chars@.len(),
            blank == (|c: char| is_whitespace(c)),
            trim_start(chars@, blank) == trim_start(chars@.skip(from as int), blank),
        decreases chars.len() - from,
    {
        assert(chars@.skip(from as int).drop_first() == chars@.skip(from as int + 1));
        from += 1;
    }
    let ghost rest = chars@.skip(from as int);
    assert(trim_start(chars@, blank) == rest);
    let mut to: usize = chars.len();
    assert(chars@.subrange(from as int, to as int) == rest);
    while from < to && char_is_whitespace(chars[to - 1])
        invariant
            from <= to <= chars@.len(),
            blank == (|c: char| is_whitespace(c)),
            trim_end(rest, blank) == trim_end(chars@.subrange(from as int, to as int), blank),
        decreases to,
    {
        assert(chars@.subrange(from as int, to as int).drop_last() == chars@.subrange(
            from as int,
            to as int - 1,
        ));
        to -= 1;
    }
    chars_between(chars, from, to)
}

// ---------------------------------------------------------------------
// Numbers
// ---------------------------------------------------------------------

pub fn value_of_digit(c: char) -> (r: u64)
    ensures
        r == digit_value(c),
        r < 16,
{
    if '0' <= c && c <= '9' {
        (c as u32 - '0' as u32) as u64
    } else if 'a' <= c && c <= 'f' {
        (c as u32 - 'a' as u32 + 10) as u64
    } else if 'A' <= c && c <= 'F' {
        (c as u32 - 'A' as u32 + 10) as u64
    } else {
        0
    }
}

pub proof fn lemma_number_monotone(s: Seq<char>, base: int, i: int)
    requires
        base >= 1,
        0 <= i <= s.len(),
    ensures
        0 <= number(s.take(i), base) <= number(s, base),
    decreases s.len(),
{
    if s.len() == 0 {
        assert(s.take(i) == s);
    } else if i == s.len() {
        assert(s.take(i) == s);
        lemma_number_monotone(s.drop_last(), base, 0);
        assert(s.drop_last().take(0) == Seq::<char>::empty());
        let n = number(s.drop_last(), base);
        assert(n * base >= 0) by (nonlinear_arith)
            requires
                n >= 0,
                base >= 1,
        ;
    } else {
        lemma_number_monotone(s.drop_last(), base, i);
        assert(s.drop_last().take(i) == s.take(i));
        let n = number(s.drop_last(), base);
        assert(n * base >= n) by (nonlinear_arith)
            requires
                n >= 0,
                base >= 1,
        ;
    }
}

/// The number that the digits denote, where it fits in 64 bits.
pub fn parse_number(chars: &[char], base: u64) -> (r: Option<u64>)
    requires
        2 <= base <= 16,
    ensures
        match r {
            Some(n) => n == number(chars@, base as int),
            None => number(chars@, base as int) > u64::MAX,
        },
{
    let mut n: u64 = 0;
    let mut i: usize = 0;
    while i < chars.len()
        invariant
            i <= chars@.len(),
            2 <= base <= 16,
            n == number(chars@.take(i as int), base as int),
        decreases chars.len() - i,
    {
        let ghost prefix = chars@.take(i as int + 1);
        assert(prefix.drop_last() == chars@.take(i as int));
        proof {
            lemma_number_monotone(chars@, base as int, i as int + 1);
        }
        let d: u64 = value_of_digit(chars[i]);
        match n.checked_mul(base) {
            None => {
                return None;
            },
            Some(m) => match m.checked_add(d) {
                None => {
                    return None;
                },
                Some(k) => {
                    n = k;
                },
            },
        }
        i += 1;
    }
    assert(chars@.take(i as int) == chars@);
    Some(n)
}

pub fn char_of_digit(d: u64) -> (r: char)
    requires
        d < 16,
    ensures
        r == digit_char(d as int),
{
    if d < 10 {
        ('0' as u8 + d as u8) as char
    } else {
        ('a' as u8 + (d as u8 - 10)) as char
    }
}

/// The digits of a number, without leading zeros.
pub fn digits_of(n: u64, base: u64) -> (r: Vec<char>)
    requires
        2 <= base <= 16,
    ensures
        r@ == digits(n as nat, base as nat),
    decreases n,
{
    if n < base {
        let mut v: Vec<char> = Vec::new();
        v.push(char_of_digit(n));
        assert(v@ == digits(n as nat, base as nat));
        v
    } else {
        assert(n / base < n) by (nonlinear_arith)
            requires
                n >= base,
                base >= 2,
        ;
        let mut v = digits_of(n / base, base);
        v.push(char_of_digit(n % base));
        v
    }
}

/// Two texts, one after the other.
pub fn joined(a: &str, b: &str) -> (r: String)
    ensures
        r@ == a@ + b@,
{
    let mut chars = to_chars(a);
    push_str(&mut chars, b);
    from_chars(chars.as_slice())
}

/// The number in decimal.
pub fn decimal_text(n: u64) -> (r: String)
    ensures
        r@ == decimal(n as nat),
{
    let v = digits_of(n, 10);
    from_chars(v.as_slice())
}

/// Digits read back give the number that was written.
pub proof fn digits_denote_their_number(n: nat, base: nat)
    requires
        2 <= base <= 16,
    ensures
        number(digits(n, base), base as int) == n,
        digits(n, base).len() >= 1,
        all_hex_digits(digits(n, base)),
        base <= 10 ==> all_digits(digits(n, base)),
    decreases n,
{
    let s = digits(n, base);
    if n < base {
        assert(s.drop_last() == Seq::<char>::empty());
        assert(number(s.drop_last(), base as int) == 0);
    } else {
        assert(n / base < n) by (nonlinear_arith)
            requires
                n >= base,
                base >= 2,
        ;
        digits_denote_their_number(n / base, base);
        assert(s.drop_last() == digits(n / base, base));
        assert((n / base) * base + n % base == n) by (nonlinear_arith)
            requires
                base >= 2,
        ;
        assert(0 <= n % base < base) by (nonlinear_arith)
            requires
                base >= 2,
        ;
        assert(digit_value(s.last()) == n % base);
    }
}


// ---------------------------------------------------------------------
// Facts about splitting
// ---------------------------------------------------------------------

/// The pieces with the separator between them.
pub open spec fn join<A>(pieces: Seq<Seq<A>>, sep: A) -> Seq<A>
    decreases pieces.len(),
{
    if pieces.len() == 0 {
        Seq::empty()
    } else if pieces.len() == 1 {
        pieces[0]
    } else {
        join(pieces.drop_last(), sep).push(sep) + pieces.last()
    }
}

/// Joining the pieces gives the sequence back.
pub proof fn joined_pieces_are_whole<A>(s: Seq<A>, sep: A)
    ensures
        join(split(s, sep), sep) == s,
    decreases s.len(),
{
    if s.len() == 0 {
        assert(s == Seq::<A>::empty());
    } else {
        let t = s.drop_last();
        let before = split(t, sep);
        joined_pieces_are_whole(t, sep);
        lemma_split_nonempty(t, sep);
        if s.last() == sep {
            let now = before.push(Seq::<A>::empty());
            assert(now.drop_last() == before);
            assert(join(now, sep) == join(before, sep).push(sep) + Seq::<A>::empty());
            assert(join(now, sep) == s);
        } else {
            let piece = before.last().push(s.last());
            let now = before.drop_last().push(piece);
            assert(now.drop_last() == before.drop_last());
            if before.len() == 1 {
                assert(now[0] == piece);
                assert(join(now, sep) == s);
            } else {
                let front = join(before.drop_last(), sep).push(sep);
                assert(t == front + before.last());
                assert(join(now, sep) == front + piece);
                assert(front + piece == (front + before.last()).push(s.last()));
                assert(t.push(s.last()) == s);
            }
        }
    }
}

/// Splitting around a separator splits both sides.
pub proof fn split_distributes<A>(a: Seq<A>, b: Seq<A>, sep: A)
    ensures
        split(a.push(sep) + b, sep) == split(a, sep) + split(b, sep),
    decreases b.len(),
{
    let s = a.push(sep) + b;
    if b.len() == 0 {
        assert(s == a.push(sep));
        assert(s.drop_last() == a);
        assert(b == Seq::<A>::empty());
        assert(split(a, sep).push(Seq::<A>::empty()) == split(a, sep) + split(b, sep));
    } else {
        let c = b.drop_last();
        split_distributes(a, c, sep);
        lemma_split_nonempty(c, sep);
        assert(s.drop_last() == a.push(sep) + c);
        let left = split(a, sep);
        let right = split(c, sep);
        assert((left + right).last() == right.last());
        assert((left + right).drop_last() == left + right.drop_last());
        if b.last() == sep {
            assert((left + right).push(Seq::<A>::empty()) == left + right.push(Seq::<A>::empty()));
        } else {
            let piece = right.last().push(b.last());
            assert((left + right).drop_last().push(piece) == left + right.drop_last().push(piece));
        }
    }
}

/// Where every element of every piece satisfies a predicate, every element but
/// the separators does.
pub proof fn pieces_cover<A>(s: Seq<A>, sep: A, p: spec_fn(A) -> bool)
    requires
        forall|i: int, j: int|
            0 <= i < split(s, sep).len() && 0 <= j < split(s, sep)[i].len() ==> p(
                #[trigger] split(s, sep)[i][j],
            ),
    ensures
        forall|k: int| 0 <= k < s.len() ==> #[trigger] s[k] == sep || p(s[k]),
    decreases s.len(),
{
    if s.len() > 0 {
        let t = s.drop_last();
        let before = split(t, sep);
        let now = split(s, sep);
        lemma_split_nonempty(t, sep);
        assert forall|i: int, j: int| 0 <= i < before.len() && 0 <= j < before[i].len() implies p(
            #[trigger] before[i][j],
        ) by {
            if s.last() == sep || i < before.len() - 1 {
                assert(now[i] == before[i]);
                assert(p(now[i][j]));
            } else {
                assert(now[i] == before.last().push(s.last()));
                assert(now[i][j] == before[i][j]);
            }
        }
        pieces_cover(t, sep, p);
        if s.last() != sep {
            let i = before.len() - 1;
            assert(now[i] == before.last().push(s.last()));
            assert(now[i][before.last().len() as int] == s.last());
        }
        assert forall|k: int| 0 <= k < s.len() implies #[trigger] s[k] == sep || p(s[k]) by {
            if k < t.len() {
                assert(t[k] == s[k]);
            }
        }
    }
}

/// Where every element satisfies a predicate, every element of every piece does.
pub proof fn pieces_inherit<A>(s: Seq<A>, sep: A, p: spec_fn(A) -> bool)
    requires
        forall|k: int| 0 <= k < s.len() ==> p(#[trigger] s[k]),
    ensures
        forall|i: int, j: int|
            0 <= i < split(s, sep).len() && 0 <= j < split(s, sep)[i].len() ==> p(
                #[trigger] split(s, sep)[i][j],
            ),
    decreases s.len(),
{
    if s.len() > 0 {
        let t = s.drop_last();
        let before = split(t, sep);
        let now = split(s, sep);
        lemma_split_nonempty(t, sep);
        pieces_inherit(t, sep, p);
        assert forall|i: int, j: int| 0 <= i < now.len() && 0 <= j < now[i].len() implies p(
            #[trigger] now[i][j],
        ) by {
            if i < before.len() - 1 || (s.last() == sep && i < before.len()) {
                assert(now[i] == before[i]);
                assert(p(before[i][j]));
            } else if s.last() != sep {
                assert(now[i] == before.last().push(s.last()));
                if j < before.last().len() {
                    assert(p(before[before.len() - 1][j]));
                } else {
                    assert(p(s[s.len() - 1]));
                }
            }
        }
    }
}

pub proof fn lower_is_idempotent(s: Seq<char>)
    ensures
        lower(lower(s)) == lower(s),
{
    assert(lower(lower(s)) =~= lower(s));
}

// ---------------------------------------------------------------------
// Laws of texts
// ---------------------------------------------------------------------

/// Only the letters A to Z change case, each to its own small letter.
pub proof fn capitals_are_lowered(c: char)
    ensures
        0x41 <= c as u32 <= 0x5a ==> lower_char(c) as u32 == c as u32 + 32,
        !(0x41 <= c as u32 <= 0x5a) ==> lower_char(c) == c,
{
}

/// Lowering works on each character by itself, and texts are the same but for case where
/// their lowered texts are.
pub proof fn lowering_is_by_character(a: Seq<char>, b: Seq<char>)
    ensures
        lower(a).len() == a.len(),
        forall|i: int| 0 <= i < a.len() ==> #[trigger] lower(a)[i] == lower_char(a[i]),
        eq_ignore_case(a, b) <==> a.len() == b.len() && forall|i: int|
            0 <= i < a.len() ==> lower_char(#[trigger] a[i]) == lower_char(b[i]),
{
    if a.len() == b.len() && (forall|i: int|
        0 <= i < a.len() ==> lower_char(#[trigger] a[i]) == lower_char(b[i])) {
        assert(lower(a) =~= lower(b));
    }
    if eq_ignore_case(a, b) {
        assert(lower(a).len() == a.len() && lower(b).len() == b.len());
        assert forall|i: int| 0 <= i < a.len() implies lower_char(#[trigger] a[i]) == lower_char(
            b[i],
        ) by {
            assert(lower(a)[i] == lower_char(a[i]));
            assert(lower(b)[i] == lower_char(b[i]));
        }
    }
}

/// The classes of characters, by their numbers.
pub proof fn characters_are_classed(c: char)
    ensures
        is_digit(c) <==> 0x30 <= c as u32 <= 0x39,
        is_letter(c) <==> 0x41 <= c as u32 <= 0x5a || 0x61 <= c as u32 <= 0x7a,
        is_alphanumeric(c) <==> 0x30 <= c as u32 <= 0x39 || 0x41 <= c as u32 <= 0x5a || 0x61
            <= c as u32 <= 0x7a,
        is_hex_digit(c) <==> 0x30 <= c as u32 <= 0x39 || 0x41 <= c as u32 <= 0x46 || 0x61
            <= c as u32 <= 0x66,
        is_control(c) <==> (c as u32) < 0x20 || c as u32 == 0x7f,
        is_unicode_control(c) <==> (c as u32) < 0x20 || 0x7f <= c as u32 <= 0x9f,
        (c as u32) < 0x80 ==> (is_whitespace(c) <==> c as u32 == 0x20 || 0x09 <= c as u32 <= 0x0d),
        0x30 <= c as u32 <= 0x39 ==> digit_value(c) == c as int - 0x30,
        0x41 <= c as u32 <= 0x46 ==> digit_value(c) == c as int - 0x37,
        0x61 <= c as u32 <= 0x66 ==> digit_value(c) == c as int - 0x57,
{
}

/// Trimming cuts whitespace from both ends, all of it and nothing else.
pub proof fn trimming_cuts_the_ends(s: Seq<char>) -> (cut: (int, int))
    ensures
        0 <= cut.0 <= cut.1 <= s.len(),
        trim(s) == s.subrange(cut.0, cut.1),
        forall|i: int| 0 <= i < cut.0 ==> is_whitespace(#[trigger] s[i]),
        forall|i: int| cut.1 <= i < s.len() ==> is_whitespace(#[trigger] s[i]),
        trim(s).len() > 0 ==> !is_whitespace(trim(s)[0]) && !is_whitespace(trim(s).last()),
{
    let blank = |c: char| is_whitespace(c);
    let a = lemma_trim_start(s, blank);
    let t = trim_start(s, blank);
    let b = lemma_trim_end(t, blank);
    assert(trim(s) =~= s.subrange(a, a + b));
    assert forall|i: int| 0 <= i < a implies is_whitespace(#[trigger] s[i]) by {
        assert(blank(s[i]));
    }
    assert forall|i: int| a + b <= i < s.len() implies is_whitespace(#[trigger] s[i]) by {
        assert(blank(t[i - a]));
    }
    if b > 0 {
        assert(trim(s)[0] == t[0]);
        assert(!blank(t[0]));
        assert(!blank(trim(s).last()));
    }
    (a, a + b)
}

pub proof fn lemma_trim_start<A>(s: Seq<A>, blank: spec_fn(A) -> bool) -> (a: int)
    ensures
        0 <= a <= s.len(),
        trim_start(s, blank) == s.skip(a),
        forall|i: int| 0 <= i < a ==> blank(#[trigger] s[i]),
        a < s.len() ==> !blank(s[a]),
    decreases s.len(),
{
    if s.len() > 0 && blank(s[0]) {
        let rest = s.drop_first();
        let a = lemma_trim_start(rest, blank);
        assert(rest.skip(a) =~= s.skip(a + 1));
        assert forall|i: int| 0 <= i < a + 1 implies blank(#[trigger] s[i]) by {
            if i > 0 {
                assert(rest[i - 1] == s[i]);
            }
        }
        if a < rest.len() {
            assert(rest[a] == s[a + 1]);
        }
        a + 1
    } else {
        assert(s.skip(0) =~= s);
        0
    }
}

pub proof fn lemma_trim_end<A>(s: Seq<A>, blank: spec_fn(A) -> bool) -> (b: int)
    ensures
        0 <= b <= s.len(),
        trim_end(s, blank) == s.take(b),
        forall|i: int| b <= i < s.len() ==> blank(#[trigger] s[i]),
        b > 0 ==> !blank(s[b - 1]),
    decreases s.len(),
{
    if s.len() > 0 && blank(s.last()) {
        let front = s.drop_last();
        let b = lemma_trim_end(front, blank);
        assert(front.take(b) =~= s.take(b));
        assert forall|i: int| b <= i < s.len() implies blank(#[trigger] s[i]) by {
            if i < front.len() {
                assert(front[i] == s[i]);
            }
        }
        if b > 0 {
            assert(front[b - 1] == s[b - 1]);
        }
        b
    } else {
        assert(s.take(s.len() as int) =~= s);
        s.len() as int
    }
}

/// The pieces of a sequence hold no separator, and there is one more of them than there
/// are separators.
pub proof fn pieces_hold_no_separator<A>(s: Seq<A>, sep: A)
    ensures
        forall|i: int, j: int|
            0 <= i < split(s, sep).len() && 0 <= j < split(s, sep)[i].len() ==> #[trigger] split(
                s,
                sep,
            )[i][j] != sep,
        split(s, sep).len() == 1 + s.filter(|x: A| x == sep).len(),
    decreases s.len(),
{
    reveal(Seq::filter);
    if s.len() > 0 {
        let t = s.drop_last();
        let before = split(t, sep);
        let now = split(s, sep);
        pieces_hold_no_separator(t, sep);
        lemma_split_nonempty(t, sep);
        assert forall|i: int, j: int|
            0 <= i < now.len() && 0 <= j < now[i].len() implies #[trigger] now[i][j] != sep by {
            if i < before.len() - 1 || (s.last() == sep && i < before.len()) {
                assert(now[i] == before[i]);
                assert(before[i][j] != sep);
            } else if s.last() != sep {
                assert(now[i] == before.last().push(s.last()));
                if j < before.last().len() {
                    assert(before[before.len() - 1][j] != sep);
                }
            }
        }
    }
}

/// Numbers are written in their digits, the highest first, without leading zeros.
pub proof fn numbers_are_written_in_digits(n: nat)
    ensures
        n < 10 ==> decimal(n) == seq![(0x30 + n) as char],
        n >= 10 ==> decimal(n) == decimal(n / 10).push((0x30 + n % 10) as char),
        n > 0 ==> decimal(n)[0] != '0',
    decreases n,
{
    if n >= 10 {
        numbers_are_written_in_digits(n / 10);
        digits_denote_their_number(n / 10, 10);
        assert(decimal(n)[0] == decimal(n / 10)[0]);
    }
}

/// The first place of a value is found, or the length where it is nowhere.
pub proof fn values_are_found_first<A>(before: Seq<A>, x: A, after: Seq<A>)
    requires
        !before.contains(x),
    ensures
        find(before.push(x) + after, x) == before.len(),
        find(before, x) == before.len(),
{
    let s = before.push(x) + after;
    assert forall|j: int| 0 <= j < before.len() implies s[j] != x by {
        assert(s[j] == before[j]);
        assert(before.contains(before[j]));
    }
    lemma_find(s, x, before.len() as int);
    lemma_find_bounds(before, x);
}

} // verus!

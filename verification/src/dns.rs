//! DNS host names in ASCII form.

use crate::text;
use vstd::prelude::*;

verus! {

pub const MAX_NAME_LENGTH: usize = 253;

pub const MAX_LABEL_LENGTH: usize = 63;

pub open spec fn is_label_char(c: char) -> bool {
    text::is_alphanumeric(c) || c == '-'
}

/// One to sixty-three letters, digits and inner hyphens.
pub open spec fn is_label(l: Seq<char>) -> bool {
    &&& 1 <= l.len() <= MAX_LABEL_LENGTH
    &&& l[0] != '-'
    &&& l.last() != '-'
    &&& forall|i: int| 0 <= i < l.len() ==> is_label_char(#[trigger] l[i])
}

/// Dot-separated labels, at most 253 characters in all.
pub open spec fn is_dns_name(s: Seq<char>) -> bool {
    let labels = text::split(s, '.');
    1 <= s.len() <= MAX_NAME_LENGTH && forall|i: int|
        0 <= i < labels.len() ==> is_label(#[trigger] labels[i])
}

/// Whether the characters are one label.
pub fn is_valid_label(l: &[char]) -> (r: bool)
    ensures
        r == is_label(l@),
{
    if l.len() == 0 || l.len() > MAX_LABEL_LENGTH || l[0] == '-' || l[l.len() - 1] == '-' {
        return false;
    }
    let mut i: usize = 0;
    while i < l.len()
        invariant
            i <= l@.len(),
            forall|j: int| 0 <= j < i ==> is_label_char(#[trigger] l@[j]),
        decreases l.len() - i,
    {
        if !text::char_is_alphanumeric(l[i]) && l[i] != '-' {
            return false;
        }
        i += 1;
    }
    true
}

/// Whether the characters are a DNS name in ASCII form.
pub fn validate_ascii_dns_name(s: &[char]) -> (r: bool)
    ensures
        r == is_dns_name(s@),
{
    if s.len() == 0 || s.len() > MAX_NAME_LENGTH {
        return false;
    }
    let labels = text::split_chars(s, '.');
    let ghost ls = text::split(s@, '.');
    assert(labels@.map_values(|p: Vec<char>| p@).len() == labels@.len());
    let mut i: usize = 0;
    while i < labels.len()
        invariant
            i <= labels@.len() == ls.len(),
            ls == text::split(s@, '.'),
            labels@.map_values(|p: Vec<char>| p@) == ls,
            forall|j: int| 0 <= j < i ==> is_label(#[trigger] ls[j]),
        decreases labels.len() - i,
    {
        assert(labels@.map_values(|p: Vec<char>| p@)[i as int] == labels@[i as int]@);
        if !is_valid_label(labels[i].as_slice()) {
            assert(!is_label(ls[i as int]));
            return false;
        }
        i += 1;
    }
    true
}

/// The characters of a DNS name.
pub proof fn lemma_name_chars(s: Seq<char>)
    requires
        is_dns_name(s),
    ensures
        forall|i: int| 0 <= i < s.len() ==> #[trigger] s[i] == '.' || is_label_char(s[i]),
{
    let labels = text::split(s, '.');
    let p = |c: char| is_label_char(c);
    assert forall|i: int, j: int| 0 <= i < labels.len() && 0 <= j < labels[i].len() implies p(
        #[trigger] labels[i][j],
    ) by {
        assert(is_label(labels[i]));
    }
    text::pieces_cover(s, '.', p);
    assert forall|i: int| 0 <= i < s.len() implies #[trigger] s[i] == '.' || is_label_char(
        s[i],
    ) by {
        assert(s[i] == '.' || p(s[i]));
    }
}

/// What `idna::domain_to_ascii_cow` gives for the bytes under the URL deny
/// list, where it accepts them.
pub uninterp spec fn idna_ascii(domain: Seq<u8>) -> Option<Seq<char>>;

/// The text without one terminal root dot.
pub open spec fn without_root(s: Seq<char>) -> Seq<char> {
    if s.len() > 0 && s.last() == '.' {
        s.drop_last()
    } else {
        s
    }
}

/// What `idna::domain_to_ascii_cow` makes of bytes that are ASCII already, where it
/// accepts them: the same in lower case, which it accepts again and keeps, but for a
/// terminal dot.
pub open spec fn keeps_ascii(domain: Seq<u8>, ascii: Seq<char>) -> bool {
    (forall|i: int| 0 <= i < domain.len() ==> #[trigger] domain[i] < 0x80) ==> {
        &&& ascii == text::lower(text::ascii_chars(domain))
        &&& idna_ascii(vstd::utf8::encode_utf8(without_root(ascii))) == Some(without_root(ascii))
    }
}

/// Calls `idna::domain_to_ascii_cow` with `AsciiDenyList::URL`: the ASCII form
/// of a domain, or `None` where it reports errors. The outcome is a function
/// of the bytes. Bytes that are ASCII already are kept but for their case; nothing
/// else is claimed of the outcome.
#[verifier::external_body]
pub(crate) fn domain_to_ascii(domain: &[u8]) -> (r: Option<String>)
    ensures
        match r {
            Some(s) => idna_ascii(domain@) == Some(s@) && keeps_ascii(domain@, s@),
            None => idna_ascii(domain@) is None,
        },
{
    match idna::domain_to_ascii_cow(domain, idna::AsciiDenyList::URL) {
        Ok(ascii) => Some(ascii.into_owned()),
        Err(_) => None,
    }
}

/// A name has one to two hundred and fifty-three characters, in labels of one to
/// sixty-three letters, digits and hyphens, none with a hyphen at an end.
pub proof fn names_are_made_of_labels(s: Seq<char>)
    ensures
        is_dns_name(s) <==> 1 <= s.len() <= 253 && forall|i: int|
            #![trigger text::split(s, '.')[i]]
            0 <= i < text::split(s, '.').len() ==> {
                let label = text::split(s, '.')[i];
                &&& 1 <= label.len() <= 63
                &&& label[0] != '-' && label.last() != '-'
                &&& forall|j: int|
                    0 <= j < label.len() ==> '0' <= #[trigger] label[j] <= '9' || 'A'
                        <= label[j] <= 'Z' || 'a' <= label[j] <= 'z' || label[j]
                        == '-'
            },
        s.len() > 0 && s.last() == '.' ==> without_root(s) == s.take(s.len() - 1),
        s.len() == 0 || s.last() != '.' ==> without_root(s) == s,
{
    let labels = text::split(s, '.');
    assert forall|i: int| 0 <= i < labels.len() implies (is_label(#[trigger] labels[i]) <==> {
        let label = labels[i];
        &&& 1 <= label.len() <= 63
        &&& label[0] != '-' && label.last() != '-'
        &&& forall|j: int|
            0 <= j < label.len() ==> '0' <= #[trigger] label[j] <= '9' || 'A' <= label[j]
                <= 'Z' || 'a' <= label[j] <= 'z' || label[j] == '-'
    }) by {
        let label = labels[i];
        if is_label(label) {
            assert forall|j: int| 0 <= j < label.len() implies '0' <= #[trigger] label[j] <= '9'
                || 'A' <= label[j] <= 'Z' || 'a' <= label[j] <= 'z' || label[j]
                == '-' by {
                assert(is_label_char(label[j]));
            }
        }
    }
    if s.len() > 0 {
        assert(s.drop_last() =~= s.take(s.len() - 1));
    }
}

} // verus!

//! UTF-16, the encoding of the operating system's wide strings.

use vstd::prelude::*;
use vstd::string::*;

use crate::text::chars_of;

verus! {

/// A value that a `char` can have.
pub open spec fn is_scalar_value(v: u32) -> bool {
    v < 0xD800 || 0xE000 <= v <= 0x10FFFF
}

/// `char::from_u32` gives the character with the given code point, and `None` for a number that is
/// no character: a surrogate, or one above U+10FFFF.
pub assume_specification[ char::from_u32 ](i: u32) -> (res: Option<char>)
    ensures
        res == (if is_scalar_value(i) {
            Some(i as char)
        } else {
            None
        }),
;

pub open spec fn is_leading_surrogate(u: u16) -> bool {
    0xD800 <= u < 0xDC00
}

pub open spec fn is_trailing_surrogate(u: u16) -> bool {
    0xDC00 <= u < 0xE000
}

/// The code units of one character: one, or a pair of surrogates.
pub open spec fn code_units(c: char) -> Seq<u16> {
    if (c as u32) < 0x10000 {
        seq![(c as u32) as u16]
    } else {
        let v = c as u32 - 0x10000;
        seq![(0xD800 + v / 0x400) as u16, (0xDC00 + v % 0x400) as u16]
    }
}

/// A text in UTF-16.
pub open spec fn encode_utf16(s: Seq<char>) -> Seq<u16>
    decreases s.len(),
{
    if s.len() == 0 {
        Seq::empty()
    } else {
        encode_utf16(s.drop_last()) + code_units(s.last())
    }
}

/// A wide string: UTF-16 with a closing zero.
pub open spec fn wide(s: Seq<char>) -> Seq<u16> {
    encode_utf16(s).push(0)
}

/// The character that a pair of surrogates stands for.
pub open spec fn surrogate_pair(lead: u16, trail: u16) -> char {
    (0x10000 + (lead - 0xD800) * 0x400 + (trail - 0xDC00)) as char
}

/// The text that code units stand for, with U+FFFD for every surrogate that has no partner.
pub open spec fn decode_utf16(units: Seq<u16>) -> Seq<char>
    decreases units.len(),
{
    if units.len() == 0 {
        Seq::empty()
    } else if !is_leading_surrogate(units[0]) && !is_trailing_surrogate(units[0]) {
        seq![units[0] as char] + decode_utf16(units.skip(1))
    } else if is_leading_surrogate(units[0]) && units.len() > 1 && is_trailing_surrogate(units[1]) {
        seq![surrogate_pair(units[0], units[1])] + decode_utf16(units.skip(2))
    } else {
        seq!['\u{FFFD}'] + decode_utf16(units.skip(1))
    }
}

/// Encodes a text as a wide string.
pub fn encode_wide(s: &str) -> (res: Vec<u16>)
    ensures
        res@ == wide(s@),
{
    let chars = chars_of(s);
    let mut res: Vec<u16> = Vec::new();
    for i in 0..chars.len()
        invariant
            res@ == encode_utf16(chars@.take(i as int)),
    {
        let c: char = chars[i];
        let code: u32 = c as u32;
        if code < 0x10000 {
            res.push(code as u16);
        } else {
            let v: u32 = code - 0x10000;
            res.push((0xD800 + v / 0x400) as u16);
            res.push((0xDC00 + v % 0x400) as u16);
        }
        assert(chars@.take(i + 1).drop_last() == chars@.take(i as int));
        assert(chars@.take(i + 1).last() == c);
        assert(res@ =~= encode_utf16(chars@.take(i as int)) + code_units(c));
    }
    assert(chars@.take(chars@.len() as int) == chars@);
    res.push(0);
    res
}

/// Decodes UTF-16; a surrogate without a partner becomes U+FFFD.
pub fn decode_utf16_lossy(units: &Vec<u16>) -> (res: Vec<char>)
    ensures
        res@ == decode_utf16(units@),
{
    let mut res: Vec<char> = Vec::new();
    let mut i: usize = 0;
    assert(units@.skip(0) == units@);
    while i < units.len()
        invariant
            i <= units.len(),
            res@ + decode_utf16(units@.skip(i as int)) == decode_utf16(units@),
        decreases units.len() - i,
    {
        let u: u16 = units[i];
        let ghost rest = units@.skip(i as int);
        assert(rest.skip(1) == units@.skip(i + 1));
        let mut c: char = '\u{FFFD}';
        let mut taken: usize = 1;
        if u < 0xD800 || u >= 0xE000 {
            if let Some(plain) = char::from_u32(u as u32) {
                c = plain;
            }
        } else if u < 0xDC00 && units.len() - i > 1 && units[i + 1] >= 0xDC00 && units[i + 1]
            < 0xE000 {
            let trail: u16 = units[i + 1];
            assert(rest.skip(2) == units@.skip(i + 2));
            let code: u32 = 0x10000 + (u as u32 - 0xD800) * 0x400 + (trail as u32 - 0xDC00);
            if let Some(joined) = char::from_u32(code) {
                c = joined;
                taken = 2;
            }
        }
        let ghost before = res@;
        res.push(c);
        assert(decode_utf16(rest) == seq![c] + decode_utf16(units@.skip(i + taken)));
        assert(res@ + decode_utf16(units@.skip(i + taken)) =~= before + decode_utf16(rest));
        i = i + taken;
    }
    assert(units@.skip(units@.len() as int) == Seq::<u16>::empty());
    res
}

proof fn lemma_decode_leading_char(c: char, rest: Seq<u16>)
    ensures
        decode_utf16(code_units(c) + rest) == seq![c] + decode_utf16(rest),
{
    let units = code_units(c) + rest;
    if (c as u32) < 0x10000 {
        assert(units.skip(1) == rest);
    } else {
        assert(units.skip(2) == rest);
    }
}

pub(crate) proof fn lemma_decode_encoded_prefix(s: Seq<char>, rest: Seq<u16>)
    ensures
        decode_utf16(encode_utf16(s) + rest) == s + decode_utf16(rest),
    decreases s.len(),
{
    if s.len() == 0 {
        assert(encode_utf16(s) + rest == rest);
    } else {
        let tail = code_units(s.last()) + rest;
        assert(encode_utf16(s) + rest == encode_utf16(s.drop_last()) + tail);
        lemma_decode_encoded_prefix(s.drop_last(), tail);
        lemma_decode_leading_char(s.last(), rest);
        assert(s.drop_last() + (seq![s.last()] + decode_utf16(rest)) == s + decode_utf16(rest));
    }
}

/// Decoding gives back every text that was encoded.
pub proof fn law_utf16_round_trip(s: Seq<char>)
    ensures
        decode_utf16(encode_utf16(s)) == s,
{
    lemma_decode_encoded_prefix(s, Seq::empty());
    assert(encode_utf16(s) + Seq::<u16>::empty() == encode_utf16(s));
    assert(s + Seq::<char>::empty() == s);
}

/// A character up to U+FFFF is its own code unit. Any other takes two, one from 0xD800 and one from
/// 0xDC00 on, each of which holds ten bits of what exceeds U+FFFF. A wide string has the units of its
/// characters, one after the other, and then a zero.
pub proof fn law_code_units(s: Seq<char>, c: char)
    ensures
        c as int <= 0xFFFF ==> code_units(c).len() == 1 && code_units(c)[0] == c as int,
        c as int > 0xFFFF ==> {
            let units = code_units(c);
            &&& units.len() == 2
            &&& 0xD800 <= units[0] <= 0xDBFF
            &&& 0xDC00 <= units[1] <= 0xDFFF
            &&& 0x10000 + (units[0] - 0xD800) * 1024 + (units[1] - 0xDC00) == c as int
        },
        encode_utf16(Seq::empty()) == Seq::<u16>::empty(),
        encode_utf16(s.push(c)) == encode_utf16(s) + code_units(c),
        wide(s).len() == encode_utf16(s).len() + 1,
        wide(s).last() == 0,
        wide(s).drop_last() == encode_utf16(s),
{
    assert(s.push(c).drop_last() =~= s);
    assert(wide(s).drop_last() =~= encode_utf16(s));
}

/// Code units are decoded from the front: one that is no surrogate is a character, two surrogates in
/// their order are one, and any other surrogate is replaced by U+FFFD.
pub proof fn law_decoding(first: u16, second: u16, rest: Seq<u16>)
    ensures
        decode_utf16(Seq::empty()) == Seq::<char>::empty(),
        first < 0xD800 || first > 0xDFFF ==> decode_utf16(seq![first] + rest) == seq![
            first as char,
        ] + decode_utf16(rest),
        0xD800 <= first <= 0xDBFF && 0xDC00 <= second <= 0xDFFF ==> decode_utf16(
            seq![first, second] + rest,
        ) == seq![(0x10000 + (first - 0xD800) * 1024 + (second - 0xDC00)) as char] + decode_utf16(
            rest,
        ),
        0xDC00 <= first <= 0xDFFF ==> decode_utf16(seq![first] + rest) == seq!['\u{FFFD}']
            + decode_utf16(rest),
        0xD800 <= first <= 0xDBFF && (rest.len() == 0 || !(0xDC00 <= rest[0] <= 0xDFFF))
            ==> decode_utf16(seq![first] + rest) == seq!['\u{FFFD}'] + decode_utf16(rest),
{
    let one = seq![first] + rest;
    let two = seq![first, second] + rest;
    assert(one[0] == first && one.skip(1) =~= rest);
    assert(two[0] == first && two[1] == second && two.skip(2) =~= rest);
    if rest.len() > 0 {
        assert(one[1] == rest[0]);
    }
}

} // verus!

use vstd::prelude::*;
use vstd::string::StringSliceAdditionalSpecFns;

verus! {

/// The filler tryte '9', which stands for zero.
pub const TRYTE_NULL: u8 = 57;

/// Whether `c` is one of the 27 tryte characters `9`, `A` ..= `Z`.
pub open spec fn is_tryte(c: u8) -> bool {
    c == 57 || (65 <= c && c <= 90)
}

/// Whether every byte of `s` is a tryte character.
pub open spec fn all_trytes(s: Seq<u8>) -> bool {
    forall|i: int| 0 <= i < s.len() ==> is_tryte(#[trigger] s[i])
}

/// The position of a tryte character in the alphabet, in `0..27`.
pub open spec fn tryte_index(c: u8) -> int {
    if c == 57 { 0 } else { c - 64 }
}

/// The tryte character at position `i` of the alphabet.
pub open spec fn tryte_char(i: int) -> u8 {
    if i == 0 { 57u8 } else { (i + 64) as u8 }
}

/// The balanced value, in `-13..=13`, of the alphabet position `i`.
pub open spec fn index_value(i: int) -> int {
    if i > 13 { i - 27 } else { i }
}

/// The alphabet position of the balanced value `v`.
pub open spec fn value_index(v: int) -> int {
    if v < 0 { v + 27 } else { v }
}

/// The balanced value of a tryte character.
pub open spec fn tryte_digit(c: u8) -> int {
    index_value(tryte_index(c))
}

/// The alphabet position of a tryte character.
pub fn index_of_tryte(c: u8) -> (r: u8)
    requires
        is_tryte(c),
    ensures
        r == tryte_index(c),
        r < 27,
{
    if c == TRYTE_NULL { 0 } else { c - 64 }
}

/// The tryte character at an alphabet position.
pub fn tryte_of_index(i: u8) -> (r: u8)
    requires
        i < 27,
    ensures
        r == tryte_char(i as int),
        is_tryte(r),
        tryte_index(r) == i,
{
    if i == 0 { TRYTE_NULL } else { i + 64 }
}

} // verus!

verus! {

/// Whether `t` is a balanced trit: -1, 0 or 1.
pub open spec fn is_trit(t: i8) -> bool {
    -1 <= t && t <= 1
}

/// Whether every element of `s` is a balanced trit.
pub open spec fn all_trits(s: Seq<i8>) -> bool {
    forall|i: int| 0 <= i < s.len() ==> is_trit(#[trigger] s[i])
}

/// The balanced value of the trits `t0`, `t1`, `t2`, least significant first.
pub open spec fn triplet_value(t0: i8, t1: i8, t2: i8) -> int {
    t0 + 3 * t1 + 9 * t2
}

/// Tryte `k` of the trits `s`.
pub open spec fn trits_tryte(s: Seq<i8>, k: int) -> u8 {
    tryte_char(value_index(triplet_value(s[3 * k], s[3 * k + 1], s[3 * k + 2])))
}

/// The tryte characters of the trits `s`, three trits to a tryte.
pub open spec fn trytes_of_trits(s: Seq<i8>) -> Seq<u8> {
    Seq::new((s.len() / 3) as nat, |k: int| trits_tryte(s, k))
}

/// Trit `p` (0, 1 or 2, least significant first) of the balanced value `v`
/// in `-13..=13`.
pub open spec fn trit_of(v: int, p: int) -> int {
    if p == 0 {
        (v + 13) % 3 - 1
    } else if p == 1 {
        ((v + 13) / 3) % 3 - 1
    } else {
        (v + 13) / 9 - 1
    }
}

/// Trit `k` of the tryte characters `t`.
pub open spec fn tryte_trit(t: Seq<u8>, k: int) -> i8 {
    trit_of(tryte_digit(t[k / 3]), k % 3) as i8
}

/// The trits of the tryte characters `t`, three to a tryte.
pub open spec fn trits_of_trytes(t: Seq<u8>) -> Seq<i8> {
    Seq::new(3 * t.len(), |k: int| tryte_trit(t, k))
}

/// The alphabet position of the tryte that three trits make.
pub fn index_of_trits(t0: i8, t1: i8, t2: i8) -> (r: u8)
    requires
        is_trit(t0),
        is_trit(t1),
        is_trit(t2),
    ensures
        r == value_index(triplet_value(t0, t1, t2)),
        r < 27,
        tryte_index(tryte_char(r as int)) == r,
{
    let v: i8 = t0 + 3 * t1 + 9 * t2;
    if v < 0 { (v + 27) as u8 } else { v as u8 }
}

/// The three trits, least significant first, of the tryte at an alphabet
/// position.
pub fn trits_of_index(i: u8) -> (r: (i8, i8, i8))
    requires
        i < 27,
    ensures
        r.0 as int == trit_of(index_value(i as int), 0),
        r.1 as int == trit_of(index_value(i as int), 1),
        r.2 as int == trit_of(index_value(i as int), 2),
        is_trit(r.0),
        is_trit(r.1),
        is_trit(r.2),
        triplet_value(r.0, r.1, r.2) == index_value(i as int),
{
    let w: u8 = if i <= 13 { i + 13 } else { i - 14 };
    let t0 = (w % 3) as i8 - 1;
    let t1 = ((w / 3) % 3) as i8 - 1;
    let t2 = (w / 9) as i8 - 1;
    (t0, t1, t2)
}

} // verus!

verus! {

/// Whether `c` is one of the 27 tryte characters.
pub open spec fn is_tryte_char(c: char) -> bool {
    c == '9' || ('A' <= c && c <= 'Z')
}

/// Whether every character of `s` is a tryte character.
pub open spec fn all_tryte_chars(s: Seq<char>) -> bool {
    forall|i: int| 0 <= i < s.len() ==> is_tryte_char(#[trigger] s[i])
}

/// The characters whose codes are the ASCII bytes `b`.
pub open spec fn ascii_chars(b: Seq<u8>) -> Seq<char> {
    Seq::new(b.len(), |i: int| b[i] as char)
}

/// The codes of the characters of an ASCII text.
pub open spec fn char_codes(s: Seq<char>) -> Seq<u8> {
    Seq::new(s.len(), |i: int| s[i] as u8)
}

/// Whether every byte of `b` is an ASCII code.
pub open spec fn all_ascii(b: Seq<u8>) -> bool {
    forall|i: int| 0 <= i < b.len() ==> #[trigger] b[i] < 128
}

/// A text of tryte characters is ASCII, and its codes are tryte bytes.
pub proof fn lemma_tryte_chars(s: Seq<char>)
    requires
        all_tryte_chars(s),
    ensures
        vstd::utf8::is_ascii_chars(s),
        all_trytes(char_codes(s)),
        ascii_chars(char_codes(s)) == s,
{
    assert forall|i: int| 0 <= i < s.len() implies '\0' <= #[trigger] s[i] <= '\u{7f}' by {
        assert(is_tryte_char(s[i]));
    }
    assert forall|i: int| 0 <= i < s.len() implies is_tryte(#[trigger] char_codes(s)[i]) by {
        assert(is_tryte_char(s[i]));
    }
    assert(ascii_chars(char_codes(s)) =~= s);
}

/// Tryte bytes are ASCII codes, and the characters they stand for are tryte
/// characters.
pub proof fn lemma_tryte_bytes(b: Seq<u8>)
    requires
        all_trytes(b),
    ensures
        all_ascii(b),
        all_tryte_chars(ascii_chars(b)),
        char_codes(ascii_chars(b)) == b,
{
    assert forall|i: int| 0 <= i < b.len() implies #[trigger] b[i] < 128 by {
        assert(is_tryte(b[i]));
    }
    assert forall|i: int| 0 <= i < b.len() implies is_tryte_char(#[trigger] ascii_chars(b)[i]) by {
        assert(is_tryte(b[i]));
    }
    assert(char_codes(ascii_chars(b)) =~= b);
}

} // verus!

verus! {

/// The bytes of a text of tryte characters are its character codes.
pub proof fn lemma_tryte_str(s: &str)
    requires
        all_tryte_chars(s@),
    ensures
        vstd::string::is_ascii(s),
        s.spec_bytes() == char_codes(s@),
        all_trytes(char_codes(s@)),
        ascii_chars(char_codes(s@)) == s@,
{
    lemma_tryte_chars(s@);
    vstd::string::is_ascii_spec_bytes(s);
    assert(s.spec_bytes() =~= char_codes(s@));
}

} // verus!

verus! {

/// The trits of a tryte character make that character again.
pub proof fn lemma_tryte_trits(c: u8)
    requires
        is_tryte(c),
    ensures
        is_trit(trit_of(tryte_digit(c), 0) as i8),
        is_trit(trit_of(tryte_digit(c), 1) as i8),
        is_trit(trit_of(tryte_digit(c), 2) as i8),
        tryte_char(
            value_index(
                triplet_value(
                    trit_of(tryte_digit(c), 0) as i8,
                    trit_of(tryte_digit(c), 1) as i8,
                    trit_of(tryte_digit(c), 2) as i8,
                ),
            ),
        ) == c,
{
}

/// Expanding tryte characters into trits and grouping the trits again gives
/// the tryte characters back.
pub proof fn lemma_trits_round_trip(t: Seq<u8>)
    requires
        all_trytes(t),
    ensures
        all_trits(trits_of_trytes(t)),
        trytes_of_trits(trits_of_trytes(t)) == t,
{
    let s = trits_of_trytes(t);
    assert forall|k: int| 0 <= k < t.len() implies #[trigger] trits_tryte(s, k) == t[k] && is_trit(
        s[3 * k],
    ) && is_trit(s[3 * k + 1]) && is_trit(s[3 * k + 2]) by {
        crate::convert::packing::lemma_div_mod_parts(k, 0, 3);
        crate::convert::packing::lemma_div_mod_parts(k, 1, 3);
        crate::convert::packing::lemma_div_mod_parts(k, 2, 3);
        lemma_tryte_trits(t[k]);
    }
    assert forall|i: int| 0 <= i < s.len() implies is_trit(#[trigger] s[i]) by {
        let k = i / 3;
        crate::convert::packing::lemma_div_mod_parts(k, i % 3, 3);
        assert(is_trit(s[3 * k]) && is_trit(s[3 * k + 1]) && is_trit(s[3 * k + 2]));
    }
    crate::convert::packing::lemma_div_mod_parts(t.len() as int, 0, 3);
    assert(trytes_of_trits(s) =~= t);
}

} // verus!

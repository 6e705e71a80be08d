//! ASCII text back from the tryte encoding of `trytes::from_ascii`.

use vstd::prelude::*;

use super::alphabet::{
    all_ascii, all_tryte_chars, all_trytes, ascii_chars, char_codes, is_tryte, is_tryte_char,
    lemma_tryte_str,
    TRYTE_NULL,
};
use super::number::{
    i64_from_trytes_max11, lemma_pow27_values, lemma_trytes_value_bound, nines,
    trytes_value,
};
use super::packing::lemma_div_mod_parts;
use super::trytes::MAX_TRYTE_TRIPLET_ABS;
use super::tryte_string::{lemma_trimmed_prefix, string_from_ascii, trimmed_right, unpad_right};
use crate::constants::is_trytes;
use crate::error::CodecError;

verus! {

/// The number, in `0..19683`, that group `g` of three trytes of `t` holds once
/// shifted by `MAX_TRYTE_TRIPLET_ABS`.
pub open spec fn group_number(t: Seq<u8>, g: int) -> int {
    trytes_value(t.subrange(3 * g, 3 * g + 3)) + 9841
}

/// Character code `j` read from the tryte groups of `t`: each group number
/// `v` gives the codes `v / 127` and `v % 127`.
pub open spec fn decoded_code(t: Seq<u8>, j: int) -> u8 {
    let v = group_number(t, j / 2);
    (if j % 2 == 0 { v / 127 } else { v % 127 }) as u8
}

/// The character codes read from the tryte groups of `t`.
pub open spec fn decoded_codes(t: Seq<u8>) -> Seq<u8> {
    Seq::new((t.len() / 3 * 2) as nat, |j: int| decoded_code(t, j))
}

/// `d` without a last code 0, the padding of a text of odd length.
pub open spec fn without_trailing_zero(d: Seq<u8>) -> Seq<u8> {
    if d.len() > 0 && d.last() == 0 {
        d.drop_last()
    } else {
        d
    }
}

/// The trytes of `s` without trailing filler, padded with filler to whole
/// groups of three.
pub open spec fn whole_groups(s: Seq<char>) -> Seq<u8> {
    let u = char_codes(trimmed_right(s));
    u + nines(((3 - u.len() % 3) % 3) as nat)
}

/// The character codes of the text that the tryte string `s` encodes.
pub open spec fn text_codes(s: Seq<char>) -> Seq<u8> {
    without_trailing_zero(decoded_codes(whole_groups(s)))
}

/// Whether every byte of `codes` is an ASCII code.
fn is_ascii_codes(codes: &Vec<u8>) -> (r: bool)
    ensures
        r == all_ascii(codes@),
{
    let mut i: usize = 0;
    while i < codes.len()
        invariant
            i <= codes@.len(),
            forall|j: int| 0 <= j < i ==> #[trigger] codes@[j] < 128,
        decreases codes@.len() - i,
    {
        if codes[i] >= 128 {
            return false;
        }
        i = i + 1;
    }
    true
}

/// Decodes the ASCII text that a tryte string encodes. Trailing filler is
/// dropped and the rest read in groups of three trytes; each group gives two
/// characters, and a last character 0 is dropped. Fails with
/// `InvalidAlphabet` when a character is not a tryte character, or when a
/// decoded code is not ASCII.
pub fn from_tryte_string(tryte_string: &str) -> (r: Result<String, CodecError>)
    ensures
        match r {
            Ok(text) => all_tryte_chars(tryte_string@) && all_ascii(text_codes(tryte_string@))
                && text@ == ascii_chars(text_codes(tryte_string@)),
            Err(e) => e == CodecError::InvalidAlphabet && (!all_tryte_chars(tryte_string@)
                || !all_ascii(text_codes(tryte_string@))),
        },
{
    if !is_trytes(tryte_string) {
        return Err(CodecError::InvalidAlphabet);
    }
    let unpadded = unpad_right(tryte_string);
    let unpadded_str = unpadded.as_str();
    let ghost s = tryte_string@;
    proof {
        lemma_trimmed_prefix(s);
        assert forall|i: int| 0 <= i < unpadded_str@.len() implies is_tryte_char(
            #[trigger] unpadded_str@[i],
        ) by {
            assert(unpadded_str@[i] == s[i]);
        }
        lemma_tryte_str(unpadded_str);
    }
    let mut trytes: Vec<u8> = vstd::slice::slice_to_vec(unpadded_str.as_bytes());
    let ghost u = trytes@;
    assert(u == char_codes(trimmed_right(s)));
    let missing: usize = (3 - trytes.len() % 3) % 3;
    let mut filler: Vec<u8> = vec![TRYTE_NULL; missing];
    assert(filler@ =~= nines(missing as nat));
    trytes.append(&mut filler);
    let ghost t = trytes@;
    assert(t == whole_groups(s));
    assert(all_trytes(t)) by {
        assert forall|i: int| 0 <= i < t.len() implies is_tryte(#[trigger] t[i]) by {
            if i < u.len() {
                assert(t[i] == u[i]);
            }
        }
    }
    proof {
        lemma_div_mod_parts(t.len() as int / 3, 0, 3);
    }
    let groups: usize = trytes.len() / 3;
    let mut codes: Vec<u8> = Vec::new();
    let mut g: usize = 0;
    while g < groups
        invariant
            g <= groups,
            groups == t.len() / 3,
            t.len() == 3 * groups,
            t.len() <= usize::MAX,
            trytes@ == t,
            all_trytes(t),
            codes@.len() == 2 * g,
            forall|j: int| 0 <= j < 2 * g ==> codes@[j] == #[trigger] decoded_code(t, j),
        decreases groups - g,
    {
        let group = vstd::slice::slice_subrange(trytes.as_slice(), 3 * g, 3 * g + 3);
        let ghost gs = t.subrange(3 * g as int, 3 * g + 3);
        assert(group@.subrange(0, 3) =~= gs);
        assert(all_trytes(gs)) by {
            assert forall|i: int| 0 <= i < 3 implies is_tryte(#[trigger] gs[i]) by {
                assert(gs[i] == t[3 * g + i]);
            }
        }
        let number = i64_from_trytes_max11(group);
        proof {
            lemma_trytes_value_bound(gs);
            lemma_pow27_values();
            lemma_div_mod_parts(g as int, 0, 2);
            lemma_div_mod_parts(g as int, 1, 2);
        }
        let index: i64 = number + MAX_TRYTE_TRIPLET_ABS;
        codes.push((index / 127) as u8);
        codes.push((index % 127) as u8);
        assert(codes@[2 * g as int] == decoded_code(t, 2 * g as int));
        assert(codes@[2 * g + 1] == decoded_code(t, 2 * g + 1));
        g = g + 1;
    }
    assert(codes@ =~= decoded_codes(t));
    let n: usize = codes.len();
    if n > 0 && codes[n - 1] == 0 {
        codes.pop();
    }
    assert(codes@ =~= text_codes(s));
    if !is_ascii_codes(&codes) {
        return Err(CodecError::InvalidAlphabet);
    }
    Ok(string_from_ascii(codes))
}

} // verus!

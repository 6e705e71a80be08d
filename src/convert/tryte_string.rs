//! Tryte strings: texts of tryte characters.

use vstd::prelude::*;
use vstd::string::{StrSliceExecFns, StringExecFns, StringSliceAdditionalSpecFns};

use super::alphabet::{
    all_ascii, all_trits, all_trytes, ascii_chars, char_codes, lemma_tryte_bytes, trytes_of_trits,
};
use super::trytes::{self, ascii_trytes};
use crate::error::CodecError;

verus! {

/// Relies on String::from_utf8: bytes that are all ASCII codes are valid
/// UTF-8, and each stands for the character with that code.
#[verifier::external_body]
pub(crate) fn string_from_ascii(bytes: Vec<u8>) -> (r: String)
    requires
        all_ascii(bytes@),
    ensures
        r@ == ascii_chars(bytes@),
{
    match String::from_utf8(bytes) {
        Ok(s) => s,
        Err(_) => String::new(),
    }
}

/// The tryte string of 243 trits.
pub fn from_trits_243(trits: &[i8]) -> (r: String)
    requires
        trits@.len() == 243,
        all_trits(trits@),
    ensures
        r@ == ascii_chars(trytes_of_trits(trits@)),
        r@.len() == 81,
{
    let t = trytes::from_trits_fixed81(trits);
    proof {
        lemma_tryte_bytes(t@);
    }
    string_from_ascii(t)
}

/// The tryte string of trits, three trits to a character; fails as
/// `trytes::from_trits` does.
pub fn from_trits(trits: &[i8]) -> (r: Result<String, CodecError>)
    ensures
        match r {
            Ok(s) => trits@.len() % 3 == 0 && all_trits(trits@) && s@ == ascii_chars(
                trytes_of_trits(trits@),
            ),
            Err(e) => if trits@.len() % 3 != 0 {
                e == CodecError::LengthMismatch
            } else {
                !all_trits(trits@) && e == CodecError::InvalidAlphabet
            },
        },
{
    match trytes::from_trits(trits) {
        Ok(t) => {
            proof {
                lemma_tryte_bytes(t@);
            }
            Ok(string_from_ascii(t))
        },
        Err(e) => Err(e),
    }
}

/// The string whose character codes are `trytes`.
pub fn from_trytes(trytes: &[u8]) -> (r: String)
    requires
        all_ascii(trytes@),
    ensures
        r@ == ascii_chars(trytes@),
{
    string_from_ascii(vstd::slice::slice_to_vec(trytes))
}

/// The tryte string that encodes an ASCII text (see `trytes::from_ascii`).
pub fn from_ascii(text: &str) -> (r: String)
    requires
        text.is_ascii(),
    ensures
        r@ == ascii_chars(ascii_trytes(char_codes(text@))),
        all_trytes(ascii_trytes(char_codes(text@))),
{
    let t = trytes::from_ascii(text);
    proof {
        lemma_tryte_bytes(t@);
    }
    string_from_ascii(t)
}

/// `k` filler characters.
pub open spec fn filler_chars(k: nat) -> Seq<char> {
    Seq::new(k, |i: int| '9')
}

/// `s` padded on the right with filler up to `length`, where lengths count
/// bytes as `str::len` does; `s` itself when it is already that long.
pub open spec fn padded_right(s: &str, length: nat) -> Seq<char> {
    if length <= s.spec_bytes().len() {
        s@
    } else {
        s@ + filler_chars((length - s.spec_bytes().len()) as nat)
    }
}

/// `s` without its trailing filler characters.
pub open spec fn trimmed_right(s: Seq<char>) -> Seq<char>
    decreases s.len(),
{
    if s.len() > 0 && s.last() == '9' {
        trimmed_right(s.drop_last())
    } else {
        s
    }
}

/// The characters `s` padded on the right with filler up to `length`.
pub open spec fn fill_to(s: Seq<char>, length: nat) -> Seq<char> {
    if length <= s.len() {
        s
    } else {
        s + filler_chars((length - s.len()) as nat)
    }
}

/// Pads `tryte_string` on the right with filler up to `length` bytes.
pub fn pad_right(tryte_string: &str, length: usize) -> (r: String)
    ensures
        r@ == padded_right(tryte_string, length as nat),
        vstd::string::is_ascii(tryte_string) ==> r@ == fill_to(tryte_string@, length as nat),
{
    proof {
        vstd::string::is_ascii_spec_bytes(tryte_string);
    }
    let n: usize = tryte_string.as_bytes().len();
    let mut padded = tryte_string.to_owned();
    if length <= n {
        return padded;
    }
    let missing: usize = length - n;
    let filler_bytes: Vec<u8> = vec![57u8; missing];
    assert(ascii_chars(filler_bytes@) =~= filler_chars(missing as nat));
    let filler = string_from_ascii(filler_bytes);
    padded.append(filler.as_str());
    padded
}

/// `tryte_string` without its trailing filler characters.
pub fn unpad_right(tryte_string: &str) -> (r: String)
    ensures
        r@ == trimmed_right(tryte_string@),
{
    let n: usize = tryte_string.unicode_len();
    let mut k: usize = n;
    assert(tryte_string@.subrange(0, n as int) =~= tryte_string@);
    while k > 0 && tryte_string.get_char(k - 1) == '9'
        invariant
            k <= n,
            n == tryte_string@.len(),
            trimmed_right(tryte_string@) == trimmed_right(tryte_string@.subrange(0, k as int)),
        decreases k,
    {
        let ghost prefix = tryte_string@.subrange(0, k as int);
        assert(prefix.drop_last() =~= tryte_string@.subrange(0, k - 1));
        k = k - 1;
    }
    tryte_string.substring_char(0, k).to_owned()
}

} // verus!

verus! {

/// Trimming filler off the right leaves a prefix.
pub proof fn lemma_trimmed_prefix(s: Seq<char>)
    ensures
        trimmed_right(s).len() <= s.len(),
        trimmed_right(s) == s.subrange(0, trimmed_right(s).len() as int),
    decreases s.len(),
{
    if s.len() > 0 && s.last() == '9' {
        lemma_trimmed_prefix(s.drop_last());
        assert(s.drop_last().subrange(0, trimmed_right(s).len() as int) =~= s.subrange(
            0,
            trimmed_right(s).len() as int,
        ));
    } else {
        assert(s.subrange(0, s.len() as int) =~= s);
    }
}

} // verus!

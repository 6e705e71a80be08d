//! Tryte characters from packed bytes, trits, tryte strings, integers and
//! ASCII text.

use vstd::prelude::*;

use super::alphabet::{
    all_trits, all_tryte_chars, all_trytes, char_codes, index_of_trits, is_trit, is_tryte,
    lemma_tryte_str, trits_tryte, tryte_of_index, trytes_of_trits, TRYTE_NULL,
};
use super::packing::{lemma_div_mod_parts, unpack, unpacked_tryte, valid_group, valid_packed};
use super::number::{
    abs, int_trytes, lemma_int_trytes_value, lemma_low_digit, lemma_max_abs_monotone,
    lemma_pow27_monotone, lemma_pow27_odd, lemma_pow27_values, magnitude_trytes, max_abs, nines,
    pow27,
};
use crate::constants::{
    is_trytes, SIGNATURE_FRAGMENTS, TRANSACTION_SIZE_BYTES, TRANSACTION_SIZE_TRYTES,
};
use crate::error::CodecError;

verus! {

broadcast use vstd::string::is_ascii_spec_bytes;

/// The largest magnitude of three trytes: `(27^3 - 1) / 2`.
pub const MAX_TRYTE_TRIPLET_ABS: i64 = 9841;

/// Unpacks `groups` byte pairs of `bytes` from `offset` on.
fn unpack_groups(bytes: &[u8], offset: usize, groups: usize) -> (r: Vec<u8>)
    requires
        offset + 2 * groups <= bytes@.len(),
        valid_packed(bytes@.subrange(offset as int, offset + 2 * groups)),
    ensures
        r@ == unpack(bytes@.subrange(offset as int, offset + 2 * groups)),
        all_trytes(r@),
{
    let ghost b = bytes@.subrange(offset as int, offset + 2 * groups);
    let n: usize = bytes.len();
    let mut trytes: Vec<u8> = Vec::new();
    let mut i: usize = 0;
    while i < groups
        invariant
            i <= groups,
            offset + 2 * groups <= n,
            n == bytes@.len(),
            b == bytes@.subrange(offset as int, offset + 2 * groups),
            valid_packed(b),
            trytes@.len() == 3 * i,
            forall|k: int| 0 <= k < 3 * i ==> trytes@[k] == #[trigger] unpacked_tryte(b, k),
            all_trytes(trytes@),
        decreases groups - i,
    {
        let pos: usize = offset + 2 * i;
        let b0 = bytes[pos];
        let b1 = bytes[pos + 1];
        proof {
            lemma_div_mod_parts(groups as int, 0, 2);
            assert(valid_group(b, i as int));
            assert(b[2 * i as int] == b0 && b[2 * i + 1] == b1);
        }
        let c0 = tryte_of_index(b0 / 8);
        let c1 = tryte_of_index(b1 / 8);
        let c2 = tryte_of_index(b0 % 8 + 8 * (b1 % 8));
        proof {
            lemma_div_mod_parts(i as int, 0, 3);
            lemma_div_mod_parts(i as int, 1, 3);
            lemma_div_mod_parts(i as int, 2, 3);
        }
        trytes.push(c0);
        trytes.push(c1);
        trytes.push(c2);
        assert(trytes@[3 * i as int] == unpacked_tryte(b, 3 * i as int));
        assert(trytes@[3 * i + 1] == unpacked_tryte(b, 3 * i + 1));
        assert(trytes@[3 * i + 2] == unpacked_tryte(b, 3 * i + 2));
        i = i + 1;
    }
    proof {
        lemma_div_mod_parts(groups as int, 0, 2);
    }
    assert(trytes@ =~= unpack(b));
    trytes
}

/// Whether `bytes` is the packing of some tryte characters: its length is
/// even and every byte pair stands for three alphabet positions.
pub fn is_valid_2enc9(bytes: &[u8]) -> (r: bool)
    ensures
        r == valid_packed(bytes@),
{
    let n: usize = bytes.len();
    if n % 2 != 0 {
        return false;
    }
    let mut i: usize = 0;
    while i < n / 2
        invariant
            i <= n / 2,
            n == bytes@.len(),
            n % 2 == 0,
            forall|g: int| 0 <= g < i ==> #[trigger] valid_group(bytes@, g),
        decreases n / 2 - i,
    {
        let b0 = bytes[2 * i];
        let b1 = bytes[2 * i + 1];
        if b0 / 8 >= 27 || b1 / 8 >= 27 || b0 % 8 + 8 * (b1 % 8) >= 27 {
            assert(!valid_group(bytes@, i as int));
            return false;
        }
        assert(valid_group(bytes@, i as int));
        i = i + 1;
    }
    true
}

/// Unpacks `len` bytes of `bytes` from `offset` on into tryte characters,
/// three for every two bytes.
pub fn from_bytes_2enc9(bytes: &[u8], offset: usize, len: usize) -> (r: Vec<u8>)
    requires
        len % 2 == 0,
        offset + len <= bytes@.len(),
        valid_packed(bytes@.subrange(offset as int, offset + len)),
    ensures
        r@ == unpack(bytes@.subrange(offset as int, offset + len)),
        all_trytes(r@),
{
    proof {
        lemma_div_mod_parts(len as int / 2, 0, 2);
    }
    unpack_groups(bytes, offset, len / 2)
}

/// Unpacks the bytes of a whole transaction into its tryte characters.
pub fn from_tx_bytes_2enc9(bytes: &[u8]) -> (r: Vec<u8>)
    requires
        bytes@.len() >= TRANSACTION_SIZE_BYTES,
        valid_packed(bytes@.subrange(0, TRANSACTION_SIZE_BYTES as int)),
    ensures
        r@ == unpack(bytes@.subrange(0, TRANSACTION_SIZE_BYTES as int)),
        r@.len() == TRANSACTION_SIZE_TRYTES,
        all_trytes(r@),
{
    unpack_groups(bytes, 0, TRANSACTION_SIZE_BYTES / 2)
}

/// Unpacks the first 54 bytes of `bytes` into 81 tryte characters.
pub fn from_54_bytes_2enc9(bytes: &[u8]) -> (r: Vec<u8>)
    requires
        bytes@.len() >= 54,
        valid_packed(bytes@.subrange(0, 54)),
    ensures
        r@ == unpack(bytes@.subrange(0, 54)),
        r@.len() == 81,
        all_trytes(r@),
{
    unpack_groups(bytes, 0, 27)
}

/// Unpacks the first 18 bytes of `bytes` into 27 tryte characters.
pub fn from_18_bytes_2enc9(bytes: &[u8]) -> (r: Vec<u8>)
    requires
        bytes@.len() >= 18,
        valid_packed(bytes@.subrange(0, 18)),
    ensures
        r@ == unpack(bytes@.subrange(0, 18)),
        r@.len() == 27,
        all_trytes(r@),
{
    unpack_groups(bytes, 0, 9)
}

/// Converts trits, which are balanced and a multiple of three in number, to
/// tryte characters.
fn trytes_of(trits: &[i8]) -> (r: Vec<u8>)
    requires
        trits@.len() % 3 == 0,
        all_trits(trits@),
    ensures
        r@ == trytes_of_trits(trits@),
        all_trytes(r@),
{
    let n: usize = trits.len();
    let mut trytes: Vec<u8> = Vec::new();
    let mut i: usize = 0;
    while i < n / 3
        invariant
            i <= n / 3,
            n == trits@.len(),
            all_trits(trits@),
            trytes@.len() == i,
            forall|k: int| 0 <= k < i ==> trytes@[k] == #[trigger] trits_tryte(trits@, k),
            all_trytes(trytes@),
        decreases n / 3 - i,
    {
        assert(is_trit(trits@[3 * i as int]));
        assert(is_trit(trits@[3 * i + 1]));
        assert(is_trit(trits@[3 * i + 2]));
        let index = index_of_trits(trits[3 * i], trits[3 * i + 1], trits[3 * i + 2]);
        trytes.push(tryte_of_index(index));
        i = i + 1;
    }
    assert(trytes@ =~= trytes_of_trits(trits@));
    trytes
}

/// Converts 243 trits to 81 tryte characters.
pub fn from_trits_fixed81(trits: &[i8]) -> (r: Vec<u8>)
    requires
        trits@.len() == 243,
        all_trits(trits@),
    ensures
        r@ == trytes_of_trits(trits@),
        r@.len() == 81,
{
    trytes_of(trits)
}

/// Whether every element of `trits` is a balanced trit.
pub fn are_trits(trits: &[i8]) -> (r: bool)
    ensures
        r == all_trits(trits@),
{
    let mut i: usize = 0;
    while i < trits.len()
        invariant
            i <= trits@.len(),
            forall|j: int| 0 <= j < i ==> is_trit(#[trigger] trits@[j]),
        decreases trits@.len() - i,
    {
        if trits[i] < -1 || trits[i] > 1 {
            return false;
        }
        i = i + 1;
    }
    true
}

/// The tryte characters of trits, three trits to a tryte, least significant
/// first; fails with `LengthMismatch` when their number is not a multiple of
/// three, and otherwise with `InvalidAlphabet` when an element is not -1, 0
/// or 1.
pub fn from_trits(trits: &[i8]) -> (r: Result<Vec<u8>, CodecError>)
    ensures
        match r {
            Ok(t) => trits@.len() % 3 == 0 && all_trits(trits@) && t@ == trytes_of_trits(trits@),
            Err(e) => if trits@.len() % 3 != 0 {
                e == CodecError::LengthMismatch
            } else {
                !all_trits(trits@) && e == CodecError::InvalidAlphabet
            },
        },
{
    if trits.len() % 3 != 0 {
        return Err(CodecError::LengthMismatch);
    }
    if !are_trits(trits) {
        return Err(CodecError::InvalidAlphabet);
    }
    Ok(trytes_of(trits))
}

/// Writes `number`, which `num_trytes` trytes hold, as that many trytes in
/// balanced ternary, least significant first.
fn balanced_trytes(number: i64, num_trytes: usize) -> (r: Vec<u8>)
    requires
        abs(number as int) <= max_abs(num_trytes as nat),
    ensures
        r@ == int_trytes(number as int, num_trytes as nat),
{
    let negative = number < 0;
    let magnitude: u64 = if negative { (-(number + 1)) as u64 + 1 } else { number as u64 };
    let ghost whole = magnitude_trytes(magnitude as int, num_trytes as nat, negative);
    let mut m: u64 = magnitude;
    let mut trytes: Vec<u8> = Vec::new();
    let mut i: usize = 0;
    assert(trytes@ + magnitude_trytes(m as int, num_trytes as nat, negative) =~= whole);
    while i < num_trytes
        invariant
            i <= num_trytes,
            m <= magnitude,
            whole == magnitude_trytes(magnitude as int, num_trytes as nat, negative),
            trytes@ + magnitude_trytes(m as int, (num_trytes - i) as nat, negative) == whole,
        decreases num_trytes - i,
    {
        let remainder = m % 27;
        proof {
            lemma_low_digit(m as int);
        }
        let c = if !negative {
            tryte_of_index(remainder as u8)
        } else if remainder == 0 {
            tryte_of_index(0)
        } else {
            tryte_of_index(27 - remainder as u8)
        };
        let ghost rest = magnitude_trytes(m as int, (num_trytes - i) as nat, negative);
        m = if remainder > 13 { m / 27 + 1 } else { m / 27 };
        let ghost after = magnitude_trytes(m as int, (num_trytes - i - 1) as nat, negative);
        assert(rest == seq![c] + after);
        trytes.push(c);
        assert(trytes@ + after =~= (trytes@.drop_last()) + rest);
        i = i + 1;
    }
    assert(trytes@ =~= whole);
    trytes
}

/// Writes `number` as `num_trytes` trytes in balanced ternary, least
/// significant first; fails with `NumericOverflow` when its magnitude exceeds
/// `(27^num_trytes - 1) / 2`.
pub fn from_i64(number: i64, num_trytes: usize) -> (r: Result<Vec<u8>, CodecError>)
    ensures
        match r {
            Ok(t) => abs(number as int) <= max_abs(num_trytes as nat) && t@ == int_trytes(
                number as int,
                num_trytes as nat,
            ),
            Err(e) => abs(number as int) > max_abs(num_trytes as nat) && e
                == CodecError::NumericOverflow,
        },
{
    proof {
        lemma_pow27_values();
    }
    if num_trytes <= 13 {
        let mut power: u64 = 1;
        let mut j: usize = 0;
        while j < num_trytes
            invariant
                j <= num_trytes <= 13,
                power == pow27(j as nat),
            decreases num_trytes - j,
        {
            proof {
                lemma_pow27_monotone((j + 1) as nat, 13);
                lemma_pow27_values();
            }
            power = power * 27;
            j = j + 1;
        }
        proof {
            lemma_pow27_odd(num_trytes as nat);
        }
        let capacity: u64 = (power - 1) / 2;
        let magnitude: u64 = if number < 0 { (-(number + 1)) as u64 + 1 } else { number as u64 };
        if magnitude > capacity {
            return Err(CodecError::NumericOverflow);
        }
    } else {
        proof {
            lemma_max_abs_monotone(14, num_trytes as nat);
        }
    }
    Ok(balanced_trytes(number, num_trytes))
}

/// Writes `number` in the 27 trytes of a value field: eleven trytes of
/// balanced ternary, then filler; fails with `NumericOverflow` when eleven
/// trytes do not hold it.
pub fn from_i64_fixed27(number: i64) -> (r: Result<Vec<u8>, CodecError>)
    ensures
        match r {
            Ok(t) => abs(number as int) <= max_abs(11) && t@ == int_trytes(number as int, 11) + nines(
                16,
            ),
            Err(e) => abs(number as int) > max_abs(11) && e == CodecError::NumericOverflow,
        },
{
    match from_i64(number, 11) {
        Ok(t) => {
            let mut trytes = t;
            let mut filler: Vec<u8> = vec![TRYTE_NULL; 16];
            assert(filler@ =~= nines(16));
            trytes.append(&mut filler);
            Ok(trytes)
        },
        Err(e) => Err(e),
    }
}

/// Writes `number` as 9 trytes in balanced ternary; fails with
/// `NumericOverflow` when nine trytes do not hold it.
pub fn from_i64_fixed9(number: i64) -> (r: Result<Vec<u8>, CodecError>)
    ensures
        match r {
            Ok(t) => abs(number as int) <= max_abs(9) && t@ == int_trytes(number as int, 9),
            Err(e) => abs(number as int) > max_abs(9) && e == CodecError::NumericOverflow,
        },
{
    from_i64(number, 9)
}

/// Code `i` of `codes`, or 0 past its end.
pub open spec fn code_at(codes: Seq<u8>, i: int) -> int {
    if i < codes.len() { codes[i] as int } else { 0 }
}

/// The number that the character pair `g` of `codes` is written as:
/// `c0 * 127 + c1 - 9841`, where a missing second character counts as 0.
pub open spec fn pair_number(codes: Seq<u8>, g: int) -> int {
    code_at(codes, 2 * g) * 127 + code_at(codes, 2 * g + 1) - 9841
}

/// Tryte `k` of the encoding of `codes`.
pub open spec fn ascii_tryte(codes: Seq<u8>, k: int) -> u8 {
    int_trytes(pair_number(codes, k / 3), 3)[k % 3]
}

/// The tryte encoding of ASCII codes: each pair of characters becomes the
/// three balanced trytes of its pair number.
pub open spec fn ascii_trytes(codes: Seq<u8>) -> Seq<u8> {
    Seq::new(((codes.len() + 1) / 2 * 3) as nat, |k: int| ascii_tryte(codes, k))
}

/// Encodes the first `limit` characters of an ASCII text, or all of it when
/// it is shorter.
fn encode_ascii(text: &str, limit: usize) -> (r: Vec<u8>)
    requires
        text.is_ascii(),
    ensures
        r@ == ascii_trytes(
            char_codes(text@).subrange(
                0,
                if text@.len() < limit { text@.len() as int } else { limit as int },
            ),
        ),
        all_trytes(r@),
{
    let bytes = text.as_bytes();
    let n: usize = if bytes.len() < limit { bytes.len() } else { limit };
    let ghost codes = char_codes(text@).subrange(0, n as int);
    assert(bytes@ =~= char_codes(text@));
    assert forall|i: int| 0 <= i < bytes@.len() implies #[trigger] bytes@[i] < 128 by {
        assert(text@[i] <= '\u{7f}');
    }
    let mut trytes: Vec<u8> = Vec::new();
    let mut g: usize = 0;
    let groups: usize = n / 2 + n % 2;
    assert(groups == (codes.len() + 1) / 2);
    while g < groups
        invariant
            g <= groups,
            groups == (codes.len() + 1) / 2,
            n <= bytes@.len(),
            codes == bytes@.subrange(0, n as int),
            codes.len() == n,
            forall|i: int| 0 <= i < bytes@.len() ==> #[trigger] bytes@[i] < 128,
            trytes@.len() == 3 * g,
            forall|k: int| 0 <= k < 3 * g ==> trytes@[k] == #[trigger] ascii_tryte(codes, k),
            all_trytes(trytes@),
        decreases groups - g,
    {
        let c0: i64 = bytes[2 * g] as i64;
        let c1: i64 = if 2 * g + 1 < n { bytes[2 * g + 1] as i64 } else { 0 };
        assert(c0 == code_at(codes, 2 * g as int));
        assert(c1 == code_at(codes, 2 * g + 1));
        let number: i64 = c0 * 127 + c1 - MAX_TRYTE_TRIPLET_ABS;
        proof {
            lemma_pow27_values();
            lemma_int_trytes_value(number as int, 3);
            lemma_div_mod_parts(g as int, 0, 3);
            lemma_div_mod_parts(g as int, 1, 3);
            lemma_div_mod_parts(g as int, 2, 3);
        }
        let triplet = balanced_trytes(number, 3);
        assert(is_tryte(triplet@[0]) && is_tryte(triplet@[1]) && is_tryte(triplet@[2]));
        trytes.push(triplet[0]);
        trytes.push(triplet[1]);
        trytes.push(triplet[2]);
        assert(trytes@[3 * g as int] == ascii_tryte(codes, 3 * g as int));
        assert(trytes@[3 * g + 1] == ascii_tryte(codes, 3 * g + 1));
        assert(trytes@[3 * g + 2] == ascii_tryte(codes, 3 * g + 2));
        g = g + 1;
    }
    assert(trytes@ =~= ascii_trytes(codes));
    trytes
}

/// Encodes an ASCII text as trytes: each pair of characters `c0`, `c1`
/// becomes the three balanced trytes of `c0 * 127 + c1 - 9841`; an odd last
/// character is paired with 0.
pub fn from_ascii(text: &str) -> (r: Vec<u8>)
    requires
        text.is_ascii(),
    ensures
        r@ == ascii_trytes(char_codes(text@)),
        all_trytes(r@),
{
    let len = text.as_bytes().len();
    let r = encode_ascii(text, len);
    assert(char_codes(text@).subrange(0, text@.len() as int) =~= char_codes(text@));
    r
}

/// Encodes the first 18 characters of an ASCII text into a tag of 27 trytes,
/// padded with filler.
pub fn from_ascii_to_trytes_27(text: &str) -> (r: Vec<u8>)
    requires
        text.is_ascii(),
    ensures
        r@ == ascii_trytes(
            char_codes(text@).subrange(0, if text@.len() < 18 { text@.len() as int } else { 18 }),
        ) + nines(
            (27 - ascii_trytes(
                char_codes(text@).subrange(
                    0,
                    if text@.len() < 18 { text@.len() as int } else { 18 },
                ),
            ).len()) as nat,
        ),
        r@.len() == 27,
{
    let mut trytes = encode_ascii(text, 18);
    let ghost encoded = trytes@;
    assert(trytes@.len() <= 27);
    let missing: usize = 27 - trytes.len();
    let mut filler: Vec<u8> = vec![TRYTE_NULL; missing];
    assert(filler@ =~= nines((27 - encoded.len()) as nat));
    trytes.append(&mut filler);
    trytes
}

/// The 81 tryte characters of a tryte string; fails with `InvalidAlphabet`
/// when a character is not a tryte character, and otherwise with
/// `LengthMismatch` when it is not 81 characters long.
pub fn from_tryte_string_trytes_81(tryte_string: &str) -> (r: Result<Vec<u8>, CodecError>)
    ensures
        match r {
            Ok(t) => all_tryte_chars(tryte_string@) && tryte_string@.len() == 81 && t@
                == char_codes(tryte_string@),
            Err(e) => if !all_tryte_chars(tryte_string@) {
                e == CodecError::InvalidAlphabet
            } else {
                tryte_string@.len() != 81 && e == CodecError::LengthMismatch
            },
        },
{
    if !is_trytes(tryte_string) {
        return Err(CodecError::InvalidAlphabet);
    }
    proof {
        lemma_tryte_str(tryte_string);
    }
    let chars = tryte_string.as_bytes();
    if chars.len() != 81 {
        return Err(CodecError::LengthMismatch);
    }
    Ok(vstd::slice::slice_to_vec(chars))
}

/// The first `n` codes of `codes`, or all of them when there are fewer.
pub open spec fn prefix(codes: Seq<u8>, n: nat) -> Seq<u8> {
    if codes.len() <= n { codes } else { codes.subrange(0, n as int) }
}

/// The 2187 tryte characters of a signature fragment: those of the tryte
/// string, cut after 2187 and padded with filler; fails with
/// `InvalidAlphabet` when a character is not a tryte character.
pub fn from_tryte_string_to_fragment_trytes(tryte_string: &str) -> (r: Result<
    Vec<u8>,
    CodecError,
>)
    ensures
        match r {
            Ok(t) => all_tryte_chars(tryte_string@) && t@ == prefix(char_codes(tryte_string@), 2187)
                + nines((2187 - prefix(char_codes(tryte_string@), 2187).len()) as nat),
            Err(e) => !all_tryte_chars(tryte_string@) && e == CodecError::InvalidAlphabet,
        },
{
    if !is_trytes(tryte_string) {
        return Err(CodecError::InvalidAlphabet);
    }
    proof {
        lemma_tryte_str(tryte_string);
    }
    let chars = tryte_string.as_bytes();
    let ghost codes = char_codes(tryte_string@);
    let n: usize = if chars.len() < SIGNATURE_FRAGMENTS.3 { chars.len() } else { SIGNATURE_FRAGMENTS.3 };
    let mut trytes: Vec<u8> = Vec::new();
    let mut i: usize = 0;
    while i < n
        invariant
            i <= n <= chars@.len(),
            n <= 2187,
            chars@ == codes,
            trytes@ == codes.subrange(0, i as int),
        decreases n - i,
    {
        trytes.push(chars[i]);
        assert(trytes@ =~= codes.subrange(0, i + 1));
        i = i + 1;
    }
    assert(trytes@ =~= prefix(codes, 2187));
    let missing: usize = SIGNATURE_FRAGMENTS.3 - n;
    let mut filler: Vec<u8> = vec![TRYTE_NULL; missing];
    assert(filler@ =~= nines(missing as nat));
    trytes.append(&mut filler);
    Ok(trytes)
}

} // verus!

//! Trits from packed bytes, tryte strings and tryte characters.

use vstd::prelude::*;

use super::alphabet::{
    all_trits, all_tryte_chars, all_trytes, char_codes, index_of_tryte, is_tryte, lemma_tryte_str,
    trits_of_index, trits_of_trytes, tryte_trit,
};
use super::packing::{lemma_div_mod_parts, unpack, valid_packed};
use super::trytes;
use crate::constants::{
    is_trytes, TRANSACTION_SIZE_BYTES, TRANSACTION_SIZE_TRITS, TRANSACTION_SIZE_TRYTES,
};
use crate::error::CodecError;

verus! {

broadcast use vstd::string::is_ascii_spec_bytes;

/// Expands tryte characters into their trits, three to a tryte, least
/// significant first.
pub fn from_trytes(trytes: &[u8]) -> (r: Vec<i8>)
    requires
        all_trytes(trytes@),
    ensures
        r@ == trits_of_trytes(trytes@),
        all_trits(r@),
{
    let n: usize = trytes.len();
    let mut trits: Vec<i8> = Vec::new();
    let mut i: usize = 0;
    while i < n
        invariant
            i <= n,
            n == trytes@.len(),
            all_trytes(trytes@),
            trits@.len() == 3 * i,
            forall|k: int| 0 <= k < 3 * i ==> trits@[k] == #[trigger] tryte_trit(trytes@, k),
            all_trits(trits@),
        decreases n - i,
    {
        assert(is_tryte(trytes@[i as int]));
        let (t0, t1, t2) = trits_of_index(index_of_tryte(trytes[i]));
        proof {
            lemma_div_mod_parts(i as int, 0, 3);
            lemma_div_mod_parts(i as int, 1, 3);
            lemma_div_mod_parts(i as int, 2, 3);
        }
        trits.push(t0);
        trits.push(t1);
        trits.push(t2);
        assert(trits@[3 * i as int] == tryte_trit(trytes@, 3 * i as int));
        assert(trits@[3 * i + 1] == tryte_trit(trytes@, 3 * i + 1));
        assert(trits@[3 * i + 2] == tryte_trit(trytes@, 3 * i + 2));
        i = i + 1;
    }
    assert(trits@ =~= trits_of_trytes(trytes@));
    trits
}

/// Expands the tryte characters of a whole transaction into its trits.
pub fn from_tx_trytes(trytes: &[u8]) -> (r: Vec<i8>)
    requires
        trytes@.len() == TRANSACTION_SIZE_TRYTES,
        all_trytes(trytes@),
    ensures
        r@ == trits_of_trytes(trytes@),
        r@.len() == TRANSACTION_SIZE_TRITS,
        all_trits(r@),
{
    from_trytes(trytes)
}

/// The trits of a tryte string; fails with `InvalidAlphabet` when a character
/// is not a tryte character.
pub fn from_tryte_string(tryte_string: &str) -> (r: Result<Vec<i8>, CodecError>)
    ensures
        match r {
            Ok(t) => all_tryte_chars(tryte_string@) && t@ == trits_of_trytes(
                char_codes(tryte_string@),
            ),
            Err(e) => !all_tryte_chars(tryte_string@) && e == CodecError::InvalidAlphabet,
        },
{
    if !is_trytes(tryte_string) {
        return Err(CodecError::InvalidAlphabet);
    }
    proof {
        lemma_tryte_str(tryte_string);
    }
    let bytes = tryte_string.as_bytes();
    Ok(from_trytes(bytes))
}

/// The trits of the tryte string of a whole transaction; fails with
/// `InvalidAlphabet` when a character is not a tryte character, and otherwise
/// with `LengthMismatch` when it does not have the transaction's length.
pub fn from_tx_tryte_string(tryte_string: &str) -> (r: Result<Vec<i8>, CodecError>)
    ensures
        match r {
            Ok(t) => all_tryte_chars(tryte_string@) && tryte_string@.len()
                == TRANSACTION_SIZE_TRYTES && t@ == trits_of_trytes(char_codes(tryte_string@)),
            Err(e) => if !all_tryte_chars(tryte_string@) {
                e == CodecError::InvalidAlphabet
            } else {
                tryte_string@.len() != TRANSACTION_SIZE_TRYTES && e == CodecError::LengthMismatch
            },
        },
{
    if !is_trytes(tryte_string) {
        return Err(CodecError::InvalidAlphabet);
    }
    proof {
        lemma_tryte_str(tryte_string);
    }
    let bytes = tryte_string.as_bytes();
    if bytes.len() != TRANSACTION_SIZE_TRYTES {
        return Err(CodecError::LengthMismatch);
    }
    Ok(from_trytes(bytes))
}

/// The trits of `len` packed bytes of `bytes` from `offset` on.
pub fn from_bytes_2enc9(bytes: &[u8], offset: usize, len: usize) -> (r: Vec<i8>)
    requires
        len % 2 == 0,
        offset + len <= bytes@.len(),
        valid_packed(bytes@.subrange(offset as int, offset + len)),
    ensures
        r@ == trits_of_trytes(unpack(bytes@.subrange(offset as int, offset + len))),
        all_trits(r@),
{
    let t = trytes::from_bytes_2enc9(bytes, offset, len);
    from_trytes(&t)
}

/// The trits of the packed bytes of a whole transaction.
pub fn from_tx_bytes_2enc9(bytes: &[u8]) -> (r: Vec<i8>)
    requires
        bytes@.len() >= TRANSACTION_SIZE_BYTES,
        valid_packed(bytes@.subrange(0, TRANSACTION_SIZE_BYTES as int)),
    ensures
        r@ == trits_of_trytes(unpack(bytes@.subrange(0, TRANSACTION_SIZE_BYTES as int))),
        r@.len() == TRANSACTION_SIZE_TRITS,
        all_trits(r@),
{
    let t = trytes::from_tx_bytes_2enc9(bytes);
    from_trytes(&t)
}

} // verus!

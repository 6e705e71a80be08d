//! Packing trytes and trits into bytes.

use vstd::prelude::*;

use super::alphabet::{
    all_trits, all_trytes, index_of_trits, index_of_tryte, is_trit, is_tryte, trytes_of_trits,
};
use crate::constants::{TRANSACTION_SIZE_BYTES, TRANSACTION_SIZE_TRITS, TRANSACTION_SIZE_TRYTES};
use super::packing::{
    lemma_div_mod_parts, lemma_pair_round_trip, pack, packed_byte,
};

verus! {

/// Packs the first `groups` groups of three trytes of `trytes`.
fn pack_groups(trytes: &[u8], groups: usize) -> (r: Vec<u8>)
    requires
        3 * groups <= trytes@.len(),
        all_trytes(trytes@.subrange(0, 3 * groups as int)),
    ensures
        r@ == pack(trytes@.subrange(0, 3 * groups as int)),
{
    let ghost t = trytes@.subrange(0, 3 * groups as int);
    let n: usize = trytes.len();
    let mut bytes: Vec<u8> = Vec::new();
    let mut i: usize = 0;
    while i < groups
        invariant
            i <= groups,
            3 * groups <= n,
            n == trytes@.len(),
            t == trytes@.subrange(0, 3 * groups as int),
            all_trytes(t),
            bytes@.len() == 2 * i,
            forall|j: int| 0 <= j < 2 * i ==> bytes@[j] == #[trigger] packed_byte(t, j),
        decreases groups - i,
    {
        assert(is_tryte(t[3 * i as int]));
        assert(is_tryte(t[3 * i + 1]));
        assert(is_tryte(t[3 * i + 2]));
        let i0 = index_of_tryte(trytes[3 * i]);
        let i1 = index_of_tryte(trytes[3 * i + 1]);
        let i2 = index_of_tryte(trytes[3 * i + 2]);
        proof {
            lemma_pair_round_trip(i0 as int, i1 as int, i2 as int);
            lemma_div_mod_parts(i as int, 0, 2);
            lemma_div_mod_parts(i as int, 1, 2);
        }
        bytes.push(i0 * 8 + i2 % 8);
        bytes.push(i1 * 8 + i2 / 8);
        assert(bytes@[2 * i as int] == packed_byte(t, 2 * i as int));
        assert(bytes@[2 * i + 1] == packed_byte(t, 2 * i + 1));
        i = i + 1;
    }
    assert(bytes@ =~= pack(t));
    bytes
}

/// Packs tryte characters into bytes, two bytes for every three trytes.
pub fn from_trytes_2enc9(trytes: &[u8]) -> (r: Vec<u8>)
    requires
        trytes@.len() % 3 == 0,
        all_trytes(trytes@),
    ensures
        r@ == pack(trytes@),
{
    assert(trytes@.subrange(0, trytes@.len() as int) =~= trytes@);
    pack_groups(trytes, trytes.len() / 3)
}

/// Packs the tryte characters of a whole transaction.
pub fn from_tx_trytes_2enc9(trytes: &[u8]) -> (r: Vec<u8>)
    requires
        trytes@.len() == TRANSACTION_SIZE_TRYTES,
        all_trytes(trytes@),
    ensures
        r@ == pack(trytes@),
        r@.len() == TRANSACTION_SIZE_BYTES,
{
    from_trytes_2enc9(trytes)
}

/// Packs the first 81 tryte characters of `trytes` into 54 bytes.
pub fn from_81_trytes_2enc9(trytes: &[u8]) -> (r: Vec<u8>)
    requires
        trytes@.len() >= 81,
        all_trytes(trytes@.subrange(0, 81)),
    ensures
        r@ == pack(trytes@.subrange(0, 81)),
        r@.len() == 54,
{
    pack_groups(trytes, 27)
}

/// Packs the first `groups` groups of nine trits of `trits`.
fn pack_trit_groups(trits: &[i8], groups: usize) -> (r: Vec<u8>)
    requires
        9 * groups <= trits@.len(),
        all_trits(trits@.subrange(0, 9 * groups as int)),
    ensures
        r@ == pack(trytes_of_trits(trits@.subrange(0, 9 * groups as int))),
{
    let ghost s = trits@.subrange(0, 9 * groups as int);
    let ghost t = trytes_of_trits(s);
    let n: usize = trits.len();
    let mut bytes: Vec<u8> = Vec::new();
    let mut i: usize = 0;
    while i < groups
        invariant
            i <= groups,
            9 * groups <= n,
            n == trits@.len(),
            s == trits@.subrange(0, 9 * groups as int),
            t == trytes_of_trits(s),
            all_trits(s),
            bytes@.len() == 2 * i,
            forall|j: int| 0 <= j < 2 * i ==> bytes@[j] == #[trigger] packed_byte(t, j),
        decreases groups - i,
    {
        let k: usize = 9 * i;
        assert(is_trit(s[k as int]) && is_trit(s[k + 1]) && is_trit(s[k + 2]));
        assert(is_trit(s[k + 3]) && is_trit(s[k + 4]) && is_trit(s[k + 5]));
        assert(is_trit(s[k + 6]) && is_trit(s[k + 7]) && is_trit(s[k + 8]));
        let i0 = index_of_trits(trits[k], trits[k + 1], trits[k + 2]);
        let i1 = index_of_trits(trits[k + 3], trits[k + 4], trits[k + 5]);
        let i2 = index_of_trits(trits[k + 6], trits[k + 7], trits[k + 8]);
        proof {
            lemma_pair_round_trip(i0 as int, i1 as int, i2 as int);
            lemma_div_mod_parts(i as int, 0, 2);
            lemma_div_mod_parts(i as int, 1, 2);
            assert(s.len() == 9 * groups);
            lemma_div_mod_parts(3 * groups as int, 0, 3);
            assert(t.len() == 3 * groups);
        }
        bytes.push(i0 * 8 + i2 % 8);
        bytes.push(i1 * 8 + i2 / 8);
        assert(bytes@[2 * i as int] == packed_byte(t, 2 * i as int));
        assert(bytes@[2 * i + 1] == packed_byte(t, 2 * i + 1));
        i = i + 1;
    }
    proof {
        lemma_div_mod_parts(3 * groups as int, 0, 3);
    }
    assert(bytes@ =~= pack(t));
    bytes
}

/// Packs the trits of a whole transaction, nine trits to two bytes.
pub fn from_tx_trits_2enc9(trits: &[i8]) -> (r: Vec<u8>)
    requires
        trits@.len() == TRANSACTION_SIZE_TRITS,
        all_trits(trits@),
    ensures
        r@ == pack(trytes_of_trits(trits@)),
        r@.len() == TRANSACTION_SIZE_BYTES,
{
    assert(trits@.subrange(0, 9 * 891int) =~= trits@);
    pack_trit_groups(trits, TRANSACTION_SIZE_TRITS / 9)
}

/// Packs 243 trits into 54 bytes.
pub fn from_243_trits_2enc9(trits: &[i8]) -> (r: Vec<u8>)
    requires
        trits@.len() == 243,
        all_trits(trits@),
    ensures
        r@ == pack(trytes_of_trits(trits@)),
        r@.len() == 54,
{
    assert(trits@.subrange(0, 9 * 27int) =~= trits@);
    pack_trit_groups(trits, 27)
}

} // verus!

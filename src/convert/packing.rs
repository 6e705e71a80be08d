//! The model of the packing in which three trytes take two bytes: for alphabet
//! positions `i0`, `i1`, `i2` the bytes are `i0 * 8 + i2 % 8` and
//! `i1 * 8 + i2 / 8`.

use vstd::arithmetic::div_mod::lemma_fundamental_div_mod_converse;
use vstd::prelude::*;

use super::alphabet::{all_trytes, is_tryte, tryte_char, tryte_index};

verus! {

/// The first byte of a packed group.
pub open spec fn first_byte(i0: int, i2: int) -> u8 {
    (i0 * 8 + i2 % 8) as u8
}

/// The second byte of a packed group.
pub open spec fn second_byte(i1: int, i2: int) -> u8 {
    (i1 * 8 + i2 / 8) as u8
}

/// Byte `j` of the packing of the tryte characters `t`.
pub open spec fn packed_byte(t: Seq<u8>, j: int) -> u8 {
    let g = j / 2;
    let i2 = tryte_index(t[3 * g + 2]);
    if j % 2 == 0 {
        first_byte(tryte_index(t[3 * g]), i2)
    } else {
        second_byte(tryte_index(t[3 * g + 1]), i2)
    }
}

/// The packing of the tryte characters `t`, whose length is a multiple of
/// three: two bytes for every three trytes.
pub open spec fn pack(t: Seq<u8>) -> Seq<u8> {
    Seq::new((t.len() / 3 * 2) as nat, |j: int| packed_byte(t, j))
}

/// The three alphabet positions that the byte pair `(b0, b1)` stands for.
pub open spec fn pair_index(b0: u8, b1: u8, m: int) -> int {
    if m == 0 {
        b0 as int / 8
    } else if m == 1 {
        b1 as int / 8
    } else {
        b0 as int % 8 + 8 * (b1 as int % 8)
    }
}

/// Whether the byte pair `(b0, b1)` is the packing of three trytes.
pub open spec fn valid_pair(b0: u8, b1: u8) -> bool {
    &&& pair_index(b0, b1, 0) < 27
    &&& pair_index(b0, b1, 1) < 27
    &&& pair_index(b0, b1, 2) < 27
}

/// Whether group `g` of `b` is the packing of three trytes.
pub open spec fn valid_group(b: Seq<u8>, g: int) -> bool {
    valid_pair(b[2 * g], b[2 * g + 1])
}

/// Whether `b` is the packing of some tryte characters.
pub open spec fn valid_packed(b: Seq<u8>) -> bool {
    &&& b.len() % 2 == 0
    &&& forall|g: int| 0 <= g < b.len() / 2 ==> #[trigger] valid_group(b, g)
}

/// Tryte `k` of the unpacking of `b`.
pub open spec fn unpacked_tryte(b: Seq<u8>, k: int) -> u8 {
    let g = k / 3;
    tryte_char(pair_index(b[2 * g], b[2 * g + 1], k % 3))
}

/// The tryte characters whose packing is `b`: three for every two bytes.
pub open spec fn unpack(b: Seq<u8>) -> Seq<u8> {
    Seq::new((b.len() / 2 * 3) as nat, |k: int| unpacked_tryte(b, k))
}

/// `(d * q + r) / d == q` and `(d * q + r) % d == r`.
pub proof fn lemma_div_mod_parts(q: int, r: int, d: int)
    requires
        0 <= r < d,
    ensures
        (d * q + r) / d == q,
        (d * q + r) % d == r,
{
    assert(d * q + r == q * d + r) by (nonlinear_arith);
    lemma_fundamental_div_mod_converse(d * q + r, d, q, r);
}

/// Packing the three tryte positions of a group and reading them back gives
/// them unchanged.
pub proof fn lemma_pair_round_trip(i0: int, i1: int, i2: int)
    requires
        0 <= i0 < 27,
        0 <= i1 < 27,
        0 <= i2 < 27,
    ensures
        0 <= i0 * 8 + i2 % 8 < 256,
        0 <= i1 * 8 + i2 / 8 < 256,
        pair_index(first_byte(i0, i2), second_byte(i1, i2), 0) == i0,
        pair_index(first_byte(i0, i2), second_byte(i1, i2), 1) == i1,
        pair_index(first_byte(i0, i2), second_byte(i1, i2), 2) == i2,
        valid_pair(first_byte(i0, i2), second_byte(i1, i2)),
{
    lemma_div_mod_parts(i2 / 8, i2 % 8, 8);
    assert(i2 == 8 * (i2 / 8) + i2 % 8);
    lemma_div_mod_parts(i0, i2 % 8, 8);
    lemma_div_mod_parts(i1, i2 / 8, 8);
}

/// Valid packed bytes never hold 0xFF: the largest byte of a packed group is
/// 26 * 8 + 7.
pub proof fn lemma_valid_pair_bound(b0: u8, b1: u8)
    requires
        valid_pair(b0, b1),
    ensures
        b0 < 216,
        b1 < 216,
{
}

/// Packing tryte characters and unpacking the bytes gives them back.
pub proof fn lemma_pack_round_trip(t: Seq<u8>)
    requires
        t.len() % 3 == 0,
        all_trytes(t),
    ensures
        valid_packed(pack(t)),
        unpack(pack(t)) == t,
{
    let b = pack(t);
    let groups = t.len() as int / 3;
    lemma_div_mod_parts(groups, 0, 3);
    lemma_div_mod_parts(groups, 0, 2);
    assert(b.len() == 2 * groups);
    assert forall|g: int| 0 <= g < b.len() / 2 implies #[trigger] valid_group(b, g) by {
        lemma_group_round_trip(t, g);
    }
    assert forall|k: int| 0 <= k < t.len() implies #[trigger] unpack(b)[k] == t[k] by {
        let g = k / 3;
        lemma_div_mod_parts(g, k % 3, 3);
        lemma_group_round_trip(t, g);
    }
    assert(unpack(b) =~= t);
}

/// Group `g` of the packing of `t` reads back as the three trytes of group
/// `g` of `t`.
proof fn lemma_group_round_trip(t: Seq<u8>, g: int)
    requires
        t.len() % 3 == 0,
        all_trytes(t),
        0 <= g < t.len() / 3,
    ensures
        valid_group(pack(t), g),
        unpacked_tryte(pack(t), 3 * g) == t[3 * g],
        unpacked_tryte(pack(t), 3 * g + 1) == t[3 * g + 1],
        unpacked_tryte(pack(t), 3 * g + 2) == t[3 * g + 2],
{
    let b = pack(t);
    lemma_div_mod_parts(t.len() as int / 3, 0, 3);
    lemma_div_mod_parts(g, 0, 2);
    lemma_div_mod_parts(g, 1, 2);
    lemma_div_mod_parts(g, 0, 3);
    lemma_div_mod_parts(g, 1, 3);
    lemma_div_mod_parts(g, 2, 3);
    assert(is_tryte(t[3 * g]) && is_tryte(t[3 * g + 1]) && is_tryte(t[3 * g + 2]));
    let i0 = tryte_index(t[3 * g]);
    let i1 = tryte_index(t[3 * g + 1]);
    let i2 = tryte_index(t[3 * g + 2]);
    lemma_pair_round_trip(i0, i1, i2);
    assert(b[2 * g] == first_byte(i0, i2));
    assert(b[2 * g + 1] == second_byte(i1, i2));
}

} // verus!

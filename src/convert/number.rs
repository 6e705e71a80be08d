//! Signed integers in balanced ternary: a tryte string is read least
//! significant tryte first, every tryte worth its balanced value in
//! `-13..=13` times a power of 27.

use vstd::prelude::*;

use super::alphabet::{
    all_trytes, is_tryte, tryte_char, tryte_digit, value_index,
};

verus! {

/// The most trytes that a signed 64-bit integer is read from.
pub const MAX_I64_TRYTE_LENGTH: usize = 11;

/// `27^k`.
pub open spec fn pow27(k: nat) -> int
    decreases k,
{
    if k == 0 {
        1
    } else {
        27 * pow27((k - 1) as nat)
    }
}

/// `3^k`.
pub open spec fn pow3(k: nat) -> int
    decreases k,
{
    if k == 0 {
        1
    } else {
        3 * pow3((k - 1) as nat)
    }
}

/// The largest magnitude that `k` trytes hold: `(27^k - 1) / 2`.
pub open spec fn max_abs(k: nat) -> int {
    (pow27(k) - 1) / 2
}

/// The magnitude of `n`.
pub open spec fn abs(n: int) -> int {
    if n < 0 { -n } else { n }
}

/// The integer that the tryte characters `s` stand for, least significant
/// tryte first.
pub open spec fn trytes_value(s: Seq<u8>) -> int
    decreases s.len(),
{
    if s.len() == 0 {
        0
    } else {
        tryte_digit(s[0]) + 27 * trytes_value(s.subrange(1, s.len() as int))
    }
}

/// The integer that the trits `s` stand for, least significant trit first.
pub open spec fn trits_value(s: Seq<i8>) -> int
    decreases s.len(),
{
    if s.len() == 0 {
        0
    } else {
        s[0] + 3 * trits_value(s.subrange(1, s.len() as int))
    }
}

/// The least significant balanced digit of `m`, in `-13..=13`.
pub open spec fn low_digit(m: int) -> int {
    let r = m % 27;
    if r > 13 { r - 27 } else { r }
}

/// What is left of `m` once its least significant balanced digit is taken.
pub open spec fn high_part(m: int) -> int {
    (m - low_digit(m)) / 27
}

/// The tryte character of the digit `d`, negated when `negative`.
pub open spec fn digit_tryte(d: int, negative: bool) -> u8 {
    tryte_char(value_index(if negative { -d } else { d }))
}

/// The `k` least significant balanced digits of the magnitude `m`, as tryte
/// characters, each negated when `negative`.
pub open spec fn magnitude_trytes(m: int, k: nat, negative: bool) -> Seq<u8>
    decreases k,
{
    if k == 0 {
        Seq::empty()
    } else {
        seq![digit_tryte(low_digit(m), negative)] + magnitude_trytes(
            high_part(m),
            (k - 1) as nat,
            negative,
        )
    }
}

/// What is left of the magnitude `m` above its `k` least significant digits.
pub open spec fn carry(m: int, k: nat) -> int
    decreases k,
{
    if k == 0 {
        m
    } else {
        carry(high_part(m), (k - 1) as nat)
    }
}

/// The `k` trytes that write `n` in balanced ternary, least significant
/// first.
pub open spec fn int_trytes(n: int, k: nat) -> Seq<u8> {
    magnitude_trytes(abs(n), k, n < 0)
}

/// `k` filler trytes.
pub open spec fn nines(k: nat) -> Seq<u8> {
    Seq::new(k, |i: int| 57u8)
}

/// The powers of 27 that bound the integer fields.
pub proof fn lemma_pow27_values()
    ensures
        pow27(3) == 19683,
        pow27(9) == 7625597484987,
        pow27(11) == 5559060566555523,
        pow27(13) == 4052555153018976267,
        pow27(14) == 109418989131512359209,
        max_abs(3) == 9841,
        max_abs(9) == 3812798742493,
        max_abs(11) == 2779530283277761,
        max_abs(13) == 2026277576509488133,
{
    assert(pow27(0) == 1);
    assert(pow27(1) == 27);
    assert(pow27(2) == 729);
    assert(pow27(3) == 19683);
    assert(pow27(4) == 531441);
    assert(pow27(5) == 14348907);
    assert(pow27(6) == 387420489);
    assert(pow27(7) == 10460353203);
    assert(pow27(8) == 282429536481);
    assert(pow27(9) == 7625597484987);
    assert(pow27(10) == 205891132094649);
    assert(pow27(11) == 5559060566555523);
    assert(pow27(12) == 150094635296999121);
    assert(pow27(13) == 4052555153018976267);
    assert(pow27(14) == 109418989131512359209);
}

/// Powers of 27 are positive and odd.
pub proof fn lemma_pow27_odd(k: nat)
    ensures
        pow27(k) >= 1,
        pow27(k) % 2 == 1,
    decreases k,
{
    if k > 0 {
        lemma_pow27_odd((k - 1) as nat);
    }
}

/// Powers of 27 grow with the exponent.
pub proof fn lemma_pow27_monotone(a: nat, b: nat)
    requires
        a <= b,
    ensures
        pow27(a) <= pow27(b),
    decreases b,
{
    if a < b {
        lemma_pow27_monotone(a, (b - 1) as nat);
        lemma_pow27_odd((b - 1) as nat);
    }
}

/// More trytes hold more.
pub proof fn lemma_max_abs_monotone(a: nat, b: nat)
    requires
        a <= b,
    ensures
        max_abs(a) <= max_abs(b),
    decreases b,
{
    if a < b {
        lemma_max_abs_monotone(a, (b - 1) as nat);
        lemma_pow27_odd((b - 1) as nat);
    }
}

/// A tryte string's value is bounded by what its length holds.
pub proof fn lemma_trytes_value_bound(s: Seq<u8>)
    requires
        all_trytes(s),
    ensures
        abs(trytes_value(s)) <= max_abs(s.len()),
    decreases s.len(),
{
    if s.len() > 0 {
        let rest = s.subrange(1, s.len() as int);
        assert(all_trytes(rest)) by {
            assert forall|i: int| 0 <= i < rest.len() implies is_tryte(#[trigger] rest[i]) by {
                assert(rest[i] == s[i + 1]);
            }
        }
        lemma_trytes_value_bound(rest);
        lemma_pow27_odd((s.len() - 1) as nat);
        assert(is_tryte(s[0]));
    }
}

/// The value of a tryte string is its first digit plus 27 times the value of
/// the rest.
pub proof fn lemma_trytes_value_cons(c: u8, s: Seq<u8>)
    ensures
        trytes_value(seq![c] + s) == tryte_digit(c) + 27 * trytes_value(s),
{
    let t = seq![c] + s;
    assert(t.subrange(1, t.len() as int) =~= s);
}

/// The tryte of a balanced digit reads back as that digit.
pub proof fn lemma_digit_tryte(d: int, negative: bool)
    requires
        -13 <= d <= 13,
    ensures
        tryte_digit(digit_tryte(d, negative)) == (if negative { -d } else { d }),
        is_tryte(digit_tryte(d, negative)),
{
}

/// Taking the low digit: it is balanced, and the magnitude splits into it and
/// the high part.
pub proof fn lemma_low_digit(m: int)
    requires
        m >= 0,
    ensures
        -13 <= low_digit(m) <= 13,
        m == low_digit(m) + 27 * high_part(m),
        high_part(m) >= 0,
        high_part(m) < m || m == 0,
{
}

/// The magnitude trytes write the magnitude, minus what is carried above them.
pub proof fn lemma_magnitude_value(m: int, k: nat, negative: bool)
    requires
        m >= 0,
    ensures
        trytes_value(magnitude_trytes(m, k, negative)) == (if negative { -1int } else { 1int }) * (m
            - pow27(k) * carry(m, k)),
        magnitude_trytes(m, k, negative).len() == k,
        all_trytes(magnitude_trytes(m, k, negative)),
    decreases k,
{
    let sgn: int = if negative { -1int } else { 1int };
    if k == 0 {
        assert(pow27(0) == 1);
        assert(magnitude_trytes(m, k, negative) =~= Seq::<u8>::empty());
    } else {
        let d = low_digit(m);
        let h = high_part(m);
        lemma_low_digit(m);
        lemma_magnitude_value(h, (k - 1) as nat, negative);
        lemma_digit_tryte(d, negative);
        let rest = magnitude_trytes(h, (k - 1) as nat, negative);
        lemma_trytes_value_cons(digit_tryte(d, negative), rest);
        let p = pow27((k - 1) as nat);
        let c = carry(h, (k - 1) as nat);
        assert(trytes_value(rest) == sgn * (h - p * c));
        assert(pow27(k) == 27 * p);
        assert(carry(m, k) == c);
        assert(sgn * d + 27 * (sgn * (h - p * c)) == sgn * (m - 27 * p * c)) by (nonlinear_arith)
            requires
                m == d + 27 * h,
        ;
        let t = magnitude_trytes(m, k, negative);
        assert forall|i: int| 0 <= i < t.len() implies is_tryte(#[trigger] t[i]) by {
            if i > 0 {
                assert(t[i] == rest[i - 1]);
            }
        }
    }
}

/// A magnitude that `k` trytes hold leaves nothing to carry.
pub proof fn lemma_carry_zero(m: int, k: nat)
    requires
        0 <= m <= max_abs(k),
    ensures
        carry(m, k) == 0,
    decreases k,
{
    if k == 0 {
        assert(pow27(0) == 1);
    } else {
        let p = pow27((k - 1) as nat);
        lemma_pow27_odd((k - 1) as nat);
        lemma_low_digit(m);
        let h = high_part(m);
        let d = low_digit(m);
        assert(pow27(k) == 27 * p);
        assert(2 * m <= 27 * p - 1);
        assert(54 * h <= 27 * p + 25);
        assert(2 * h <= p) by (nonlinear_arith)
            requires
                54 * h <= 27 * p + 25,
        ;
        assert(2 * h <= p - 1);
        lemma_carry_zero(h, (k - 1) as nat);
    }
}

/// Writing `n` in `k` trytes and reading it back gives `n`, when `k` trytes
/// hold it.
pub proof fn lemma_int_trytes_value(n: int, k: nat)
    requires
        abs(n) <= max_abs(k),
    ensures
        trytes_value(int_trytes(n, k)) == n,
        int_trytes(n, k).len() == k,
        all_trytes(int_trytes(n, k)),
{
    lemma_carry_zero(abs(n), k);
    lemma_magnitude_value(abs(n), k, n < 0);
}

/// Reads a signed integer from at most the first 11 trytes of `trytes`, least
/// significant first.
pub fn i64_from_trytes_max11(trytes: &[u8]) -> (r: i64)
    requires
        all_trytes(trytes@.subrange(0, if trytes@.len() < 11 { trytes@.len() as int } else { 11 })),
    ensures
        r == trytes_value(
            trytes@.subrange(0, if trytes@.len() < 11 { trytes@.len() as int } else { 11 }),
        ),
{
    let n: usize = if trytes.len() < MAX_I64_TRYTE_LENGTH {
        trytes.len()
    } else {
        MAX_I64_TRYTE_LENGTH
    };
    let ghost s = trytes@.subrange(0, n as int);
    let mut number: i64 = 0;
    let mut i: usize = n;
    proof {
        lemma_pow27_values();
        assert(s.subrange(n as int, n as int) =~= Seq::<u8>::empty());
    }
    while i > 0
        invariant
            i <= n <= 11,
            n <= trytes@.len(),
            s == trytes@.subrange(0, n as int),
            all_trytes(s),
            number == trytes_value(s.subrange(i as int, n as int)),
        decreases i,
    {
        let c = trytes[i - 1];
        assert(c == s[i - 1]);
        assert(is_tryte(c));
        let d: i64 = if c == 57 {
            0
        } else if c <= 77 {
            (c - 64) as i64
        } else {
            (c - 64) as i64 - 27
        };
        assert(d == tryte_digit(c));
        let ghost tail = s.subrange(i as int, n as int);
        let ghost longer = s.subrange(i - 1, n as int);
        proof {
            assert(longer =~= seq![c] + tail);
            lemma_trytes_value_cons(c, tail);
            assert(all_trytes(longer)) by {
                assert forall|j: int| 0 <= j < longer.len() implies is_tryte(#[trigger] longer[j]) by {
                    assert(longer[j] == s[i - 1 + j]);
                }
            }
            lemma_trytes_value_bound(longer);
            lemma_max_abs_monotone(longer.len(), 11);
            lemma_pow27_values();
            assert(trytes_value(longer) == d + 27 * number);
            assert(-2779530283277761 <= trytes_value(longer) <= 2779530283277761);
        }
        number = number * 27 + d;
        i = i - 1;
    }
    assert(s.subrange(0, n as int) =~= s);
    number
}

/// A trit sequence's value is bounded by its length, whatever the elements.
pub proof fn lemma_trits_value_bound(s: Seq<i8>)
    ensures
        pow3(s.len()) >= 1,
        abs(trits_value(s)) <= 64 * (pow3(s.len()) - 1),
    decreases s.len(),
{
    if s.len() > 0 {
        lemma_trits_value_bound(s.subrange(1, s.len() as int));
    }
}

/// `3^k` grows with `k`.
pub proof fn lemma_pow3_monotone(a: nat, b: nat)
    requires
        a <= b,
    ensures
        1 <= pow3(a) <= pow3(b),
    decreases b,
{
    if a < b {
        lemma_pow3_monotone(a, (b - 1) as nat);
    } else {
        lemma_pow3_positive(a);
    }
}

/// `3^k` is positive.
pub proof fn lemma_pow3_positive(k: nat)
    ensures
        pow3(k) >= 1,
    decreases k,
{
    if k > 0 {
        lemma_pow3_positive((k - 1) as nat);
    }
}

/// Reads a signed integer from at most 20 trits, least significant first.
pub fn i64_from_trits(trits: &[i8]) -> (r: i64)
    requires
        trits@.len() <= 20,
    ensures
        r == trits_value(trits@),
{
    let n: usize = trits.len();
    let mut number: i64 = 0;
    let mut i: usize = n;
    assert(trits@.subrange(n as int, n as int) =~= Seq::<i8>::empty());
    while i > 0
        invariant
            i <= n <= 20,
            n == trits@.len(),
            number == trits_value(trits@.subrange(i as int, n as int)),
        decreases i,
    {
        let t = trits[i - 1];
        let ghost tail = trits@.subrange(i as int, n as int);
        let ghost longer = trits@.subrange(i - 1, n as int);
        proof {
            assert(longer.subrange(1, longer.len() as int) =~= tail);
            lemma_trits_value_bound(longer);
            lemma_pow3_monotone(longer.len(), 20);
            assert(pow3(20) == 3486784401) by {
                reveal_with_fuel(pow3, 21);
            }
            assert(trits_value(longer) == t + 3 * number);
        }
        number = number * 3 + t as i64;
        i = i - 1;
    }
    assert(trits@.subrange(0, n as int) =~= trits@);
    number
}

/// Writing a number in `k` trytes, at most eleven, that hold it, and reading
/// them back with `i64_from_trytes_max11`, gives the number.
pub proof fn lemma_i64_round_trip(n: i64, k: nat)
    requires
        k <= 11,
        abs(n as int) <= max_abs(k),
    ensures
        trytes_value(int_trytes(n as int, k).subrange(0, k as int)) == n,
{
    lemma_int_trytes_value(n as int, k);
    assert(int_trytes(n as int, k).subrange(0, k as int) =~= int_trytes(n as int, k));
}

/// Writing a number in the 27 trytes of a value field and reading back their
/// first eleven gives the number.
pub proof fn lemma_i64_fixed27_round_trip(n: i64)
    requires
        abs(n as int) <= max_abs(11),
    ensures
        trytes_value((int_trytes(n as int, 11) + nines(16)).subrange(0, 11)) == n,
{
    lemma_int_trytes_value(n as int, 11);
    assert((int_trytes(n as int, 11) + nines(16)).subrange(0, 11) =~= int_trytes(n as int, 11));
}

} // verus!

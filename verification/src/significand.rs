//! Significands: natural numbers in little-endian base-256 digits.
//!
//! A finite non-zero binary number is an odd natural number times a power of
//! two, in exactly one way. This module holds that canonical form: how it is
//! told, and how a significand with its exponent is brought into it.

use vstd::arithmetic::power2::{lemma2_to64, lemma_pow2_adds, lemma_pow2_strictly_increases, pow2};
use vstd::prelude::*;

verus! {

/// The natural number that little-endian base-256 digits denote.
pub open spec fn bytes_value(bytes: Seq<u8>) -> nat
    decreases bytes.len(),
{
    if bytes.len() == 0 {
        0
    } else {
        bytes[0] as nat + 256 * bytes_value(bytes.drop_first())
    }
}

/// The number of binary digits of a byte, without its leading zeros.
pub open spec fn bit_width(byte: u8) -> nat {
    if byte >= 128 {
        8
    } else if byte >= 64 {
        7
    } else if byte >= 32 {
        6
    } else if byte >= 16 {
        5
    } else if byte >= 8 {
        4
    } else if byte >= 4 {
        3
    } else if byte >= 2 {
        2
    } else if byte >= 1 {
        1
    } else {
        0
    }
}

/// The number of binary digits of little-endian base-256 digits whose last
/// digit is not zero.
pub open spec fn bit_length(bytes: Seq<u8>) -> nat {
    if bytes.len() == 0 {
        0
    } else {
        (8 * (bytes.len() - 1) + bit_width(bytes.last())) as nat
    }
}

/// Whether `significand` is the one way to write an odd natural number of at
/// most `precision` binary digits: no leading zero digit, the lowest bit
/// set.
pub open spec fn canonical(significand: Seq<u8>, precision: nat) -> bool {
    &&& significand.len() > 0
    &&& significand.last() != 0
    &&& significand[0] % 2 == 1
    &&& bit_length(significand) <= precision
}

/// Digits without a leading zero digit denote at least one.
proof fn lemma_bytes_value_positive(bytes: Seq<u8>)
    requires
        bytes.len() > 0,
        bytes.last() != 0,
    ensures
        bytes_value(bytes) >= 1,
    decreases bytes.len(),
{
    if bytes.len() > 1 {
        let rest = bytes.drop_first();
        assert(rest.last() == bytes.last());
        lemma_bytes_value_positive(rest);
    } else {
        assert(bytes.drop_first().len() == 0);
        assert(bytes[0] == bytes.last());
    }
}

/// Among digits without a leading zero digit, only the single digit one
/// denotes the number one.
pub proof fn lemma_bytes_value_one(bytes: Seq<u8>)
    requires
        bytes.len() > 0,
        bytes.last() != 0,
    ensures
        bytes_value(bytes) == 1 <==> bytes =~= seq![1u8],
{
    if bytes.len() > 1 {
        let rest = bytes.drop_first();
        assert(rest.last() == bytes.last());
        lemma_bytes_value_positive(rest);
    } else {
        assert(bytes.drop_first().len() == 0);
        assert(bytes_value(bytes.drop_first()) == 0);
    }
}

/// Digits without a leading zero digit denote a number of exactly as many
/// binary digits as [`bit_length`] counts.
proof fn lemma_bit_length_bounds(bytes: Seq<u8>)
    requires
        bytes.len() > 0,
        bytes.last() != 0,
    ensures
        pow2((bit_length(bytes) - 1) as nat) <= bytes_value(bytes) < pow2(bit_length(bytes)),
    decreases bytes.len(),
{
    lemma2_to64();
    if bytes.len() == 1 {
        assert(bytes.drop_first().len() == 0);
        assert(bytes_value(bytes.drop_first()) == 0);
        assert(bytes[0] == bytes.last());
    } else {
        let rest = bytes.drop_first();
        assert(rest.last() == bytes.last());
        lemma_bit_length_bounds(rest);
        let n = bit_length(rest);
        assert(bit_length(bytes) == 8 + n);
        lemma_pow2_adds(8, n);
        lemma_pow2_adds(8, (n - 1) as nat);
        assert(pow2(8) == 256);
    }
}

/// What a canonical significand denotes is odd, is not zero and has no
/// more binary digits than the precision allows.
pub proof fn lemma_canonical_significand(significand: Seq<u8>, precision: nat)
    requires
        canonical(significand, precision),
    ensures
        bytes_value(significand) % 2 == 1,
        0 < bytes_value(significand) < pow2(precision),
{
    lemma_bit_length_bounds(significand);
    if bit_length(significand) < precision {
        lemma_pow2_strictly_increases(bit_length(significand), precision);
    }
}

/// Digits without a leading zero digit have no more binary digits than
/// `precision` exactly when the number they denote is below two to that
/// power.
pub proof fn lemma_bit_length_fits(bytes: Seq<u8>, precision: nat)
    requires
        bytes.len() > 0,
        bytes.last() != 0,
    ensures
        bit_length(bytes) <= precision <==> bytes_value(bytes) < pow2(precision),
{
    lemma_bit_length_bounds(bytes);
    let length = bit_length(bytes);
    if length < precision {
        lemma_pow2_strictly_increases(length, precision);
    }
    if precision < length - 1 {
        lemma_pow2_strictly_increases(precision, (length - 1) as nat);
    }
}

/// The number of binary digits of a byte, without its leading zeros.
fn width_of(byte: u8) -> (width: u8)
    ensures
        width == bit_width(byte),
{
    if byte >= 128 {
        8
    } else if byte >= 64 {
        7
    } else if byte >= 32 {
        6
    } else if byte >= 16 {
        5
    } else if byte >= 8 {
        4
    } else if byte >= 4 {
        3
    } else if byte >= 2 {
        2
    } else if byte >= 1 {
        1
    } else {
        0
    }
}

/// Whether `significand` is written canonically for the given precision.
pub fn is_canonical(significand: &Vec<u8>, precision: u32) -> (ok: bool)
    ensures
        ok == canonical(significand@, precision as nat),
{
    let n = significand.len();
    if n == 0 {
        return false;
    }
    let top = significand[n - 1];
    if top == 0 || significand[0] % 2 != 1 {
        return false;
    }
    (n as u128 - 1) * 8 + width_of(top) as u128 <= precision as u128
}

/// The odd number that is left of `n` when every factor two is taken out;
/// zero for zero.
pub open spec fn odd_part(n: nat) -> nat
    decreases n,
{
    if n == 0 {
        0
    } else if n % 2 == 1 {
        n
    } else {
        odd_part(n / 2)
    }
}

/// The odd part of a number that is not zero is odd.
pub proof fn lemma_odd_part_is_odd(n: nat)
    ensures
        n > 0 ==> odd_part(n) % 2 == 1,
        n == 0 ==> odd_part(n) == 0,
    decreases n,
{
    if n > 0 && n % 2 == 0 {
        lemma_odd_part_is_odd(n / 2);
    }
}

/// How often two divides `n`; zero for zero.
pub open spec fn twos(n: nat) -> nat
    decreases n,
{
    if n == 0 || n % 2 == 1 {
        0
    } else {
        1 + twos(n / 2)
    }
}

/// A number is its odd part times two for each factor two that was taken
/// out of it.
pub proof fn lemma_odd_part_times_twos(n: nat)
    ensures
        n == odd_part(n) * pow2(twos(n)),
    decreases n,
{
    lemma2_to64();
    if n > 0 && n % 2 == 0 {
        let half = n / 2;
        lemma_odd_part_times_twos(half);
        lemma_pow2_adds(1, twos(half));
        assert(odd_part(half) * (2 * pow2(twos(half))) == 2 * (odd_part(half) * pow2(twos(half))))
            by (nonlinear_arith);
    } else {
        assert(odd_part(n) * 1 == odd_part(n));
    }
}

/// The exponent that goes with the odd part of `n`, where `n` goes with
/// `exponent`: `n` times two to the power of `exponent` is the odd part of
/// `n` times two to the power of this.
pub open spec fn normal_exponent(n: nat, exponent: int) -> int {
    exponent + twos(n)
}

/// The digits of half the number: each digit is halved and takes the lowest
/// bit of the next digit as its highest.
pub open spec fn halved(bytes: Seq<u8>) -> Seq<u8> {
    Seq::new(
        bytes.len(),
        |i: int|
            (bytes[i] / 2 + if i + 1 < bytes.len() {
                (bytes[i + 1] % 2) * 128
            } else {
                0
            }) as u8,
    )
}

/// Halving the digits halves the number; the lowest bit is lost.
proof fn lemma_halved_value(bytes: Seq<u8>)
    requires
        bytes.len() > 0,
    ensures
        2 * bytes_value(halved(bytes)) + bytes[0] % 2 == bytes_value(bytes),
    decreases bytes.len(),
{
    let rest = bytes.drop_first();
    assert(halved(bytes).drop_first() =~= halved(rest));
    if rest.len() > 0 {
        lemma_halved_value(rest);
    } else {
        assert(bytes_value(rest) == 0);
        assert(bytes_value(halved(rest)) == 0);
    }
}

/// A zero digit at the end adds nothing to the number.
proof fn lemma_leading_zero(bytes: Seq<u8>)
    requires
        bytes.len() > 0,
        bytes.last() == 0,
    ensures
        bytes_value(bytes.drop_last()) == bytes_value(bytes),
    decreases bytes.len(),
{
    let rest = bytes.drop_first();
    let shorter = bytes.drop_last();
    if bytes.len() == 1 {
        assert(bytes_value(rest) == 0);
        assert(bytes_value(shorter) == 0);
    } else {
        assert(rest.last() == bytes.last());
        lemma_leading_zero(rest);
        assert(shorter.drop_first() =~= rest.drop_last());
        assert(shorter[0] == bytes[0]);
    }
}

/// Takes the zero digits off the end of the digits.
fn strip_leading_zeros(bytes: &mut Vec<u8>)
    ensures
        bytes_value(final(bytes)@) == bytes_value(old(bytes)@),
        final(bytes)@.len() == 0 || final(bytes)@.last() != 0,
{
    while bytes.len() > 0 && bytes[bytes.len() - 1] == 0
        invariant
            bytes_value(bytes@) == bytes_value(old(bytes)@),
        decreases bytes.len(),
    {
        proof {
            lemma_leading_zero(bytes@);
        }
        let _ = bytes.pop();
    }
}

/// Halves the number that the digits denote, rounding down.
fn halve(bytes: &mut Vec<u8>)
    ensures
        final(bytes)@ == halved(old(bytes)@),
{
    let n = bytes.len();
    let mut i: usize = 0;
    while i < n
        invariant
            i <= n,
            bytes@.len() == n,
            old(bytes)@.len() == n,
            forall|j: int| 0 <= j < i ==> bytes@[j] == halved(old(bytes)@)[j],
            forall|j: int| i <= j < n ==> bytes@[j] == old(bytes)@[j],
        decreases n - i,
    {
        let carry: u8 = if i + 1 < n {
            (bytes[i + 1] % 2) * 128
        } else {
            0
        };
        let half: u8 = bytes[i] / 2 + carry;
        bytes.set(i, half);
        i += 1;
    }
    assert(bytes@ =~= halved(old(bytes)@));
}

/// Brings a significand and its exponent into canonical form: the odd part
/// of the significand, and the exponent raised by the number of factors two
/// that were taken out. The digits come back empty for a significand of
/// zero. The result is `None` where the exponent would leave its range.
pub fn normalize(significand: Vec<u8>, exponent: i64) -> (normal: Option<(Vec<u8>, i64)>)
    ensures
        match normal {
            Some((digits, raised)) => {
                &&& bytes_value(digits@) == odd_part(bytes_value(significand@))
                &&& raised == normal_exponent(bytes_value(significand@), exponent as int)
                &&& digits@.len() == 0 || (digits@.last() != 0 && digits@[0] % 2 == 1)
            },
            None => normal_exponent(bytes_value(significand@), exponent as int) > i64::MAX,
        },
{
    let ghost given = bytes_value(significand@);
    let mut digits = significand;
    let mut raised = exponent;
    strip_leading_zeros(&mut digits);
    if digits.len() == 0 {
        return Some((digits, raised));
    }
    proof {
        lemma_bytes_value_positive(digits@);
    }
    while digits[0] % 2 == 0
        invariant
            given == bytes_value(significand@),
            digits@.len() > 0,
            digits@.last() != 0,
            bytes_value(digits@) > 0,
            odd_part(bytes_value(digits@)) == odd_part(given),
            raised + twos(bytes_value(digits@)) == exponent + twos(given),
        decreases bytes_value(digits@),
    {
        let ghost before = digits@;
        assert(bytes_value(before) % 2 == 0);
        if raised == i64::MAX {
            return None;
        }
        halve(&mut digits);
        proof {
            lemma_halved_value(before);
        }
        strip_leading_zeros(&mut digits);
        raised += 1;
        proof {
            assert(bytes_value(digits@) == bytes_value(before) / 2);
            assert(digits@.len() > 0);
        }
    }
    Some((digits, raised))
}

} // verus!

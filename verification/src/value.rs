//! The numbers of the calculator, as plain data.
//!
//! A component of a complex value is a binary floating-point number of a
//! given precision. It is held here exactly: a sign, and for a finite
//! non-zero number an odd significand and a power of two. The arithmetic on
//! such numbers is not part of this crate; whoever does it reads the parts
//! and hands the result back in the same form.

use crate::significand::{
    bytes_value, canonical, is_canonical, lemma_bit_length_fits, lemma_bytes_value_one,
    lemma_canonical_significand, lemma_odd_part_is_odd, normal_exponent, normalize, odd_part,
};
use vstd::arithmetic::power2::{lemma_pow2_pos, pow2};
use vstd::prelude::*;

verus! {

/// The absolute value of a number, as mathematics sees it.
pub enum MagnitudeModel {
    Zero,
    /// `significand` times two to the power of `exponent`.
    Finite { significand: nat, exponent: int },
    Infinite,
    NotANumber,
}

/// A floating-point number, as mathematics sees it.
pub struct FloatModel {
    pub precision: nat,
    pub negative: bool,
    pub magnitude: MagnitudeModel,
}

impl FloatModel {
    /// What holds of every number: it has a bit of precision at least, and
    /// where it is finite and not zero, its significand is odd and has no
    /// more binary digits than the precision.
    pub open spec fn normal(self) -> bool {
        &&& self.precision >= 1
        &&& self.magnitude matches MagnitudeModel::Finite { significand, .. } ==> {
            &&& significand % 2 == 1
            &&& significand < pow2(self.precision)
        }
    }
}

impl FloatModel {
    /// Whether the number is negative: its sign bit is set and it is not
    /// zero.
    pub open spec fn below_zero(self) -> bool {
        self.negative && !(self.magnitude is Zero)
    }
}

/// A complex number, as mathematics sees it.
pub struct ComplexModel {
    pub re: FloatModel,
    pub im: FloatModel,
}

/// The magnitude of `n` times two to the power of `exponent`, the
/// significand made odd.
pub open spec fn normal_model(n: nat, exponent: int) -> MagnitudeModel {
    if n == 0 {
        MagnitudeModel::Zero
    } else {
        MagnitudeModel::Finite { significand: odd_part(n), exponent: normal_exponent(n, exponent) }
    }
}

/// The absolute value of a number.
#[derive(Debug, PartialEq, Eq)]
pub enum Magnitude {
    Zero,
    /// The number `significand` times two to the power of `exponent`, the
    /// significand in little-endian base-256 digits.
    Finite { significand: Vec<u8>, exponent: i64 },
    Infinite,
    NotANumber,
}

impl View for Magnitude {
    type V = MagnitudeModel;

    open spec fn view(&self) -> MagnitudeModel {
        match self {
            Magnitude::Zero => MagnitudeModel::Zero,
            Magnitude::Finite { significand, exponent } => MagnitudeModel::Finite {
                significand: bytes_value(significand@),
                exponent: *exponent as int,
            },
            Magnitude::Infinite => MagnitudeModel::Infinite,
            Magnitude::NotANumber => MagnitudeModel::NotANumber,
        }
    }
}

impl Magnitude {
    /// Whether the magnitude can belong to a number of the given precision.
    pub open spec fn fits(&self, precision: nat) -> bool {
        match self {
            Magnitude::Finite { significand, .. } => canonical(significand@, precision),
            _ => true,
        }
    }
}

impl Clone for Magnitude {
    fn clone(&self) -> (copy: Self)
        ensures
            copy@ == self@,
            forall|precision: nat| self.fits(precision) ==> copy.fits(precision),
    {
        match self {
            Magnitude::Zero => Magnitude::Zero,
            Magnitude::Finite { significand, exponent } => Magnitude::Finite {
                significand: significand.clone(),
                exponent: *exponent,
            },
            Magnitude::Infinite => Magnitude::Infinite,
            Magnitude::NotANumber => Magnitude::NotANumber,
        }
    }
}

/// One component of a complex value: a binary floating-point number that
/// carries its precision and, also where it is zero, its sign.
#[derive(Debug, PartialEq, Eq)]
pub struct FloatValue {
    precision: u32,
    negative: bool,
    magnitude: Magnitude,
}

impl View for FloatValue {
    type V = FloatModel;

    closed spec fn view(&self) -> FloatModel {
        FloatModel {
            precision: self.precision as nat,
            negative: self.negative,
            magnitude: self.magnitude@,
        }
    }
}

impl FloatValue {
    #[verifier::type_invariant]
    spec fn well_formed(&self) -> bool {
        self.precision >= 1 && self.magnitude.fits(self.precision as nat)
    }

    /// A number of `precision` bits with the given sign and magnitude, or
    /// `None` where the precision is zero or the magnitude is not written
    /// canonically for it.
    pub fn new(precision: u32, negative: bool, magnitude: Magnitude) -> (made: Option<FloatValue>)
        ensures
            made is Some <==> precision >= 1 && magnitude.fits(precision as nat),
            made matches Some(value) ==> value@ == (FloatModel {
                precision: precision as nat,
                negative,
                magnitude: magnitude@,
            }) && value@.normal(),
    {
        if precision == 0 {
            return None;
        }
        let fits = match &magnitude {
            Magnitude::Finite { significand, .. } => {
                proof {
                    if canonical(significand@, precision as nat) {
                        lemma_canonical_significand(significand@, precision as nat);
                    }
                }
                is_canonical(significand, precision)
            },
            _ => true,
        };
        if fits {
            Some(FloatValue { precision, negative, magnitude })
        } else {
            None
        }
    }

    /// The number of `precision` bits with the given sign whose absolute
    /// value is `significand` times two to the power of `exponent`. The
    /// significand comes in little-endian base-256 digits and need not be
    /// canonical. The result is `None` where the precision is zero, where
    /// the odd part of the significand has more binary digits than the
    /// precision, or where the exponent that goes with the odd part leaves
    /// the range of 64 bits.
    pub fn from_parts(precision: u32, negative: bool, significand: Vec<u8>, exponent: i64) -> (made:
        Option<FloatValue>)
        ensures
            made is Some <==> {
                &&& precision >= 1
                &&& odd_part(bytes_value(significand@)) < pow2(precision as nat)
                &&& normal_exponent(bytes_value(significand@), exponent as int) <= i64::MAX
            },
            made matches Some(value) ==> value@ == (FloatModel {
                precision: precision as nat,
                negative,
                magnitude: normal_model(bytes_value(significand@), exponent as int),
            }) && value@.normal(),
    {
        proof {
            lemma_odd_part_is_odd(bytes_value(significand@));
            lemma_pow2_pos(precision as nat);
        }
        match normalize(significand, exponent) {
            None => None,
            Some((digits, raised)) => {
                if digits.len() == 0 {
                    FloatValue::new(precision, negative, Magnitude::Zero)
                } else {
                    proof {
                        lemma_bit_length_fits(digits@, precision as nat);
                    }
                    FloatValue::new(
                        precision,
                        negative,
                        Magnitude::Finite { significand: digits, exponent: raised },
                    )
                }
            },
        }
    }

    /// The precision in bits.
    pub fn precision(&self) -> (bits: u32)
        ensures
            bits == self@.precision,
            bits >= 1,
    {
        proof {
            use_type_invariant(self);
        }
        self.precision
    }

    /// Whether the sign bit is set. Zero, infinity and not-a-number carry a
    /// sign too.
    pub fn is_sign_negative(&self) -> (negative: bool)
        ensures
            negative == self@.negative,
    {
        self.negative
    }

    /// Whether the number is negative: its sign bit is set and it is not
    /// zero. A zero of either sign is not negative; infinity and
    /// not-a-number go by their sign bit.
    pub fn is_negative(&self) -> (negative: bool)
        ensures
            negative == self@.below_zero(),
    {
        self.negative && !self.is_zero()
    }

    /// The absolute value.
    pub fn magnitude(&self) -> (magnitude: &Magnitude)
        ensures
            magnitude@ == self@.magnitude,
            magnitude.fits(self@.precision),
            self@.normal(),
    {
        proof {
            use_type_invariant(self);
            if let Magnitude::Finite { significand, .. } = &self.magnitude {
                lemma_canonical_significand(significand@, self.precision as nat);
            }
        }
        &self.magnitude
    }

    /// Whether the number is zero, of either sign.
    pub fn is_zero(&self) -> (zero: bool)
        ensures
            zero == (self@.magnitude is Zero),
    {
        match &self.magnitude {
            Magnitude::Zero => true,
            _ => false,
        }
    }

    /// Whether the absolute value is exactly one.
    pub fn is_unit(&self) -> (unit: bool)
        ensures
            unit == (self@.magnitude == MagnitudeModel::Finite { significand: 1, exponent: 0 }),
    {
        proof {
            use_type_invariant(self);
        }
        match &self.magnitude {
            Magnitude::Finite { significand, exponent } => {
                proof {
                    lemma_bytes_value_one(significand@);
                }
                significand.len() == 1 && significand[0] == 1 && *exponent == 0
            },
            _ => false,
        }
    }
}

impl Clone for FloatValue {
    fn clone(&self) -> (copy: Self)
        ensures
            copy@ == self@,
    {
        proof {
            use_type_invariant(self);
        }
        FloatValue {
            precision: self.precision,
            negative: self.negative,
            magnitude: self.magnitude.clone(),
        }
    }
}

/// A complex value: a real and an imaginary component, each with a
/// precision of its own.
#[derive(Debug, PartialEq, Eq)]
pub struct ComplexValue {
    pub re: FloatValue,
    pub im: FloatValue,
}

impl View for ComplexValue {
    type V = ComplexModel;

    open spec fn view(&self) -> ComplexModel {
        ComplexModel { re: self.re@, im: self.im@ }
    }
}

impl ComplexValue {
    /// The complex value with the given real part and an imaginary part of
    /// positive zero at the same precision.
    pub fn from_real(re: FloatValue) -> (value: ComplexValue)
        ensures
            value@.re == re@,
            value@.im == (FloatModel {
                precision: re@.precision,
                negative: false,
                magnitude: MagnitudeModel::Zero,
            }),
    {
        let precision = re.precision();
        let im = FloatValue { precision, negative: false, magnitude: Magnitude::Zero };
        ComplexValue { re, im }
    }
}

impl Clone for ComplexValue {
    fn clone(&self) -> (copy: Self)
        ensures
            copy@ == self@,
    {
        ComplexValue { re: self.re.clone(), im: self.im.clone() }
    }
}

/// The number of significant decimal digits to render a number of
/// `precision` bits with: a fifth of the bits, less two. There is none for
/// a precision under ten bits.
pub fn digit_count(precision: u32) -> (count: Option<usize>)
    ensures
        count == if precision / 5 >= 2 {
            Some((precision / 5 - 2) as usize)
        } else {
            None::<usize>
        },
{
    if precision / 5 >= 2 {
        Some((precision / 5 - 2) as usize)
    } else {
        None
    }
}

} // verus!

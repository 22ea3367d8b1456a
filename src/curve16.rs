//! The curve with 16-bit field and order: its parameters and the constants of its two
//! prime fields.
use crate::prime_field::FieldElement;
use crate::traits::{Modulus, PrimeFieldConstants};
use vstd::arithmetic::power::pow;
use vstd::arithmetic::power2::pow2;
use vstd::prelude::*;

verus! {

/// The order of the curve's group, the modulus of its scalar field.
pub const ORDER: u64 = 0xfe93;

/// The modulus of the field of coordinates.
pub const FIELD_MODULUS: u64 = 0xffa7;

/// The bit length of both moduli.
pub const NUM_BITS: u32 = 16;

/// The coefficient `b` of the curve equation.
pub const EQUATION_B: u16 = 7;

/// The affine `x` coordinate of the generator.
pub const GENERATOR_X: u16 = 23947;

/// The affine `y` coordinate of the generator.
pub const GENERATOR_Y: u16 = 53757;

/// The modulus of the field of coordinates in hexadecimal.
pub const FIELD_MODULUS_STR: &'static str = "0xffa7";

/// The inverse of two in the field of coordinates.
pub const FIELD_TWO_INV: u16 = 0x7fd4;

/// A generator of the multiplicative group of the field of coordinates.
pub const FIELD_GENERATOR: u16 = 5;

/// A square root of unity in the field of coordinates (the 2-adic valuation is one).
pub const FIELD_ROOT_OF_UNITY: u16 = 0xffa6;

/// The generator of the field of coordinates squared.
pub const FIELD_DELTA: u16 = 25;

impl PrimeFieldConstants<u16> for Modulus<u16, FIELD_MODULUS> {
    open spec fn modulus_value() -> nat {
        FIELD_MODULUS as nat
    }

    open spec fn generator_value() -> nat {
        FIELD_GENERATOR as nat
    }

    open spec fn root_value() -> nat {
        FIELD_ROOT_OF_UNITY as nat
    }

    open spec fn s_value() -> nat {
        1
    }

    fn modulus_str() -> (r: &'static str) {
        FIELD_MODULUS_STR
    }

    fn modulus() -> (r: u16) {
        FIELD_MODULUS as u16
    }

    fn num_bits() -> (r: u32) {
        proof {
            vstd::arithmetic::power2::lemma2_to64();
            vstd::arithmetic::power2::lemma2_to64_rest();
        }
        NUM_BITS
    }

    fn capacity() -> (r: u32) {
        proof {
            vstd::arithmetic::power2::lemma2_to64();
            vstd::arithmetic::power2::lemma2_to64_rest();
        }
        NUM_BITS - 1
    }

    fn two_inv() -> (r: u16) {
        FIELD_TWO_INV
    }

    fn multiplicative_generator() -> (r: u16) {
        FIELD_GENERATOR
    }

    fn s() -> (r: u32) {
        1
    }

    fn root_of_unity() -> (r: u16) {
        proof {
            vstd::arithmetic::power2::lemma2_to64();
            vstd::arithmetic::power::lemma_square_is_pow2(FIELD_ROOT_OF_UNITY as int);
        }
        FIELD_ROOT_OF_UNITY
    }

    fn root_of_unity_inv() -> (r: u16) {
        // The square root of unity is its own inverse.
        FIELD_ROOT_OF_UNITY
    }

    fn delta() -> (r: u16) {
        proof {
            vstd::arithmetic::power2::lemma2_to64();
            vstd::arithmetic::power::lemma_square_is_pow2(FIELD_GENERATOR as int);
        }
        FIELD_DELTA
    }
}

/// The modulus of the scalar field in hexadecimal.
pub const SCALAR_MODULUS_STR: &'static str = "0xfe93";

/// The inverse of two in the scalar field.
pub const SCALAR_TWO_INV: u16 = 0x7f4a;

/// A generator of the multiplicative group of the scalar field.
pub const SCALAR_GENERATOR: u16 = 2;

/// A square root of unity in the scalar field (the 2-adic valuation is one).
pub const SCALAR_ROOT_OF_UNITY: u16 = 0xfe92;

/// The generator of the scalar field squared.
pub const SCALAR_DELTA: u16 = 4;

impl PrimeFieldConstants<u16> for Modulus<u16, ORDER> {
    open spec fn modulus_value() -> nat {
        ORDER as nat
    }

    open spec fn generator_value() -> nat {
        SCALAR_GENERATOR as nat
    }

    open spec fn root_value() -> nat {
        SCALAR_ROOT_OF_UNITY as nat
    }

    open spec fn s_value() -> nat {
        1
    }

    fn modulus_str() -> (r: &'static str) {
        SCALAR_MODULUS_STR
    }

    fn modulus() -> (r: u16) {
        ORDER as u16
    }

    fn num_bits() -> (r: u32) {
        proof {
            vstd::arithmetic::power2::lemma2_to64();
            vstd::arithmetic::power2::lemma2_to64_rest();
        }
        NUM_BITS
    }

    fn capacity() -> (r: u32) {
        proof {
            vstd::arithmetic::power2::lemma2_to64();
            vstd::arithmetic::power2::lemma2_to64_rest();
        }
        NUM_BITS - 1
    }

    fn two_inv() -> (r: u16) {
        SCALAR_TWO_INV
    }

    fn multiplicative_generator() -> (r: u16) {
        SCALAR_GENERATOR
    }

    fn s() -> (r: u32) {
        1
    }

    fn root_of_unity() -> (r: u16) {
        proof {
            vstd::arithmetic::power2::lemma2_to64();
            vstd::arithmetic::power::lemma_square_is_pow2(SCALAR_ROOT_OF_UNITY as int);
        }
        SCALAR_ROOT_OF_UNITY
    }

    fn root_of_unity_inv() -> (r: u16) {
        // The square root of unity is its own inverse.
        SCALAR_ROOT_OF_UNITY
    }

    fn delta() -> (r: u16) {
        proof {
            vstd::arithmetic::power2::lemma2_to64();
            vstd::arithmetic::power::lemma_square_is_pow2(SCALAR_GENERATOR as int);
        }
        SCALAR_DELTA
    }
}

/// An elliptic curve with a 16-bit order: `y² = x³ − 3x + b` over the field of
/// coordinates.
#[derive(Debug, Clone, Copy, Default, PartialEq, Eq, PartialOrd, Ord)]
pub struct TinyCurve16;

impl TinyCurve16 {
    /// The order of the group.
    pub fn order() -> (r: u64)
        ensures
            r == ORDER,
    {
        ORDER
    }

    /// The coefficient `a` of the curve equation, `−3`.
    pub fn equation_a() -> (r: FieldElement<u16, FIELD_MODULUS>)
        ensures
            r.value() == FIELD_MODULUS - 3,
    {
        FieldElement::new_unchecked(FIELD_MODULUS as u16 - 3)
    }

    /// The coefficient `b` of the curve equation.
    pub fn equation_b() -> (r: FieldElement<u16, FIELD_MODULUS>)
        ensures
            r.value() == EQUATION_B,
    {
        FieldElement::new_unchecked(EQUATION_B)
    }

    /// The generator of the group, as affine coordinates on the curve.
    pub fn generator() -> (r: (FieldElement<u16, FIELD_MODULUS>, FieldElement<u16, FIELD_MODULUS>))
        ensures
            r.0.value() == GENERATOR_X,
            r.1.value() == GENERATOR_Y,
            (r.1.value() * r.1.value()) % (FIELD_MODULUS as nat) == (r.0.value() * r.0.value()
                * r.0.value() + (FIELD_MODULUS - 3) * r.0.value() + EQUATION_B) % (FIELD_MODULUS as int),
    {
        (FieldElement::new_unchecked(GENERATOR_X), FieldElement::new_unchecked(GENERATOR_Y))
    }
}

} // verus!

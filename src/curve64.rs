//! The curve with 64-bit field and order: its parameters and the constants of its two
//! prime fields.
use crate::prime_field::FieldElement;
use crate::traits::{Modulus, PrimeFieldConstants};
use vstd::arithmetic::power::pow;
use vstd::arithmetic::power2::pow2;
use vstd::prelude::*;

verus! {

/// The order of the curve's group, the modulus of its scalar field.
pub const ORDER: u64 = 0xffffffff1a0a85df;

/// The modulus of the field of coordinates.
pub const FIELD_MODULUS: u64 = 0xfffffffffffffc7f;

/// The bit length of both moduli.
pub const NUM_BITS: u32 = 64;

/// The coefficient `b` of the curve equation.
pub const EQUATION_B: u64 = 6;

/// The affine `x` coordinate of the generator.
pub const GENERATOR_X: u64 = 11619086278950426528;

/// The affine `y` coordinate of the generator.
pub const GENERATOR_Y: u64 = 2765382488766937725;

/// The modulus of the field of coordinates in hexadecimal.
pub const FIELD_MODULUS_STR: &'static str = "0xfffffffffffffc7f";

/// The inverse of two in the field of coordinates.
pub const FIELD_TWO_INV: u64 = 0x7ffffffffffffe40;

/// A generator of the multiplicative group of the field of coordinates.
pub const FIELD_GENERATOR: u64 = 3;

/// A square root of unity in the field of coordinates (the 2-adic valuation is one).
pub const FIELD_ROOT_OF_UNITY: u64 = 0xfffffffffffffc7e;

/// The generator of the field of coordinates squared.
pub const FIELD_DELTA: u64 = 9;

impl PrimeFieldConstants<u64> for Modulus<u64, FIELD_MODULUS> {
    open spec fn modulus_value() -> nat {
        FIELD_MODULUS as nat
    }

    open spec fn generator_value() -> nat {
        FIELD_GENERATOR as nat
    }

    open spec fn root_value() -> nat {
        FIELD_ROOT_OF_UNITY as nat
    }

    open spec fn s_value() -> nat {
        1
    }

    fn modulus_str() -> (r: &'static str) {
        FIELD_MODULUS_STR
    }

    fn modulus() -> (r: u64) {
        FIELD_MODULUS as u64
    }

    fn num_bits() -> (r: u32) {
        proof {
            vstd::arithmetic::power2::lemma2_to64();
            vstd::arithmetic::power2::lemma2_to64_rest();
        }
        NUM_BITS
    }

    fn capacity() -> (r: u32) {
        proof {
            vstd::arithmetic::power2::lemma2_to64();
            vstd::arithmetic::power2::lemma2_to64_rest();
        }
        NUM_BITS - 1
    }

    fn two_inv() -> (r: u64) {
        FIELD_TWO_INV
    }

    fn multiplicative_generator() -> (r: u64) {
        FIELD_GENERATOR
    }

    fn s() -> (r: u32) {
        1
    }

    fn root_of_unity() -> (r: u64) {
        proof {
            vstd::arithmetic::power2::lemma2_to64();
            vstd::arithmetic::power::lemma_square_is_pow2(FIELD_ROOT_OF_UNITY as int);
        }
        FIELD_ROOT_OF_UNITY
    }

    fn root_of_unity_inv() -> (r: u64) {
        // The square root of unity is its own inverse.
        FIELD_ROOT_OF_UNITY
    }

    fn delta() -> (r: u64) {
        proof {
            vstd::arithmetic::power2::lemma2_to64();
            vstd::arithmetic::power::lemma_square_is_pow2(FIELD_GENERATOR as int);
        }
        FIELD_DELTA
    }
}

/// The modulus of the scalar field in hexadecimal.
pub const SCALAR_MODULUS_STR: &'static str = "0xffffffff1a0a85df";

/// The inverse of two in the scalar field.
pub const SCALAR_TWO_INV: u64 = 0x7fffffff8d0542f0;

/// A generator of the multiplicative group of the scalar field.
pub const SCALAR_GENERATOR: u64 = 5;

/// A square root of unity in the scalar field (the 2-adic valuation is one).
pub const SCALAR_ROOT_OF_UNITY: u64 = 0xffffffff1a0a85de;

/// The generator of the scalar field squared.
pub const SCALAR_DELTA: u64 = 25;

impl PrimeFieldConstants<u64> for Modulus<u64, ORDER> {
    open spec fn modulus_value() -> nat {
        ORDER as nat
    }

    open spec fn generator_value() -> nat {
        SCALAR_GENERATOR as nat
    }

    open spec fn root_value() -> nat {
        SCALAR_ROOT_OF_UNITY as nat
    }

    open spec fn s_value() -> nat {
        1
    }

    fn modulus_str() -> (r: &'static str) {
        SCALAR_MODULUS_STR
    }

    fn modulus() -> (r: u64) {
        ORDER as u64
    }

    fn num_bits() -> (r: u32) {
        proof {
            vstd::arithmetic::power2::lemma2_to64();
            vstd::arithmetic::power2::lemma2_to64_rest();
        }
        NUM_BITS
    }

    fn capacity() -> (r: u32) {
        proof {
            vstd::arithmetic::power2::lemma2_to64();
            vstd::arithmetic::power2::lemma2_to64_rest();
        }
        NUM_BITS - 1
    }

    fn two_inv() -> (r: u64) {
        SCALAR_TWO_INV
    }

    fn multiplicative_generator() -> (r: u64) {
        SCALAR_GENERATOR
    }

    fn s() -> (r: u32) {
        1
    }

    fn root_of_unity() -> (r: u64) {
        proof {
            vstd::arithmetic::power2::lemma2_to64();
            vstd::arithmetic::power::lemma_square_is_pow2(SCALAR_ROOT_OF_UNITY as int);
        }
        SCALAR_ROOT_OF_UNITY
    }

    fn root_of_unity_inv() -> (r: u64) {
        // The square root of unity is its own inverse.
        SCALAR_ROOT_OF_UNITY
    }

    fn delta() -> (r: u64) {
        proof {
            vstd::arithmetic::power2::lemma2_to64();
            vstd::arithmetic::power::lemma_square_is_pow2(SCALAR_GENERATOR as int);
        }
        SCALAR_DELTA
    }
}

/// An elliptic curve with a 64-bit order: `y² = x³ − 3x + b` over the field of
/// coordinates.
#[derive(Debug, Clone, Copy, Default, PartialEq, Eq, PartialOrd, Ord)]
pub struct TinyCurve64;

impl TinyCurve64 {
    /// The order of the group.
    pub fn order() -> (r: u64)
        ensures
            r == ORDER,
    {
        ORDER
    }

    /// The coefficient `a` of the curve equation, `−3`.
    pub fn equation_a() -> (r: FieldElement<u64, FIELD_MODULUS>)
        ensures
            r.value() == FIELD_MODULUS - 3,
    {
        FieldElement::new_unchecked(FIELD_MODULUS as u64 - 3)
    }

    /// The coefficient `b` of the curve equation.
    pub fn equation_b() -> (r: FieldElement<u64, FIELD_MODULUS>)
        ensures
            r.value() == EQUATION_B,
    {
        FieldElement::new_unchecked(EQUATION_B)
    }

    /// The generator of the group, as affine coordinates on the curve.
    pub fn generator() -> (r: (FieldElement<u64, FIELD_MODULUS>, FieldElement<u64, FIELD_MODULUS>))
        ensures
            r.0.value() == GENERATOR_X,
            r.1.value() == GENERATOR_Y,
            (r.1.value() * r.1.value()) % (FIELD_MODULUS as nat) == (r.0.value() * r.0.value()
                * r.0.value() + (FIELD_MODULUS - 3) * r.0.value() + EQUATION_B) % (FIELD_MODULUS as int),
    {
        (FieldElement::new_unchecked(GENERATOR_X), FieldElement::new_unchecked(GENERATOR_Y))
    }
}

} // verus!

//! The width abstraction: the native unsigned integers a field element can be stored in,
//! each with a double-width counterpart for products.
use crate::reciprocal::{rem_wide_with_reciprocal, Reciprocal};
use core::marker::PhantomData;
use vstd::arithmetic::power::pow;
use vstd::arithmetic::power2::pow2;
use vstd::prelude::*;

verus! {

/// A double-width unsigned integer, the type of the product of two narrow ones.
pub trait WideUint: Sized + Copy {
    /// The integer as a natural number.
    spec fn wide_value(&self) -> nat;

    /// One more than the largest value of the type.
    spec fn wide_limit() -> nat;

    /// Multiplies two wide integers whose product fits.
    fn wide_mul(self, rhs: Self) -> (r: Self)
        requires
            self.wide_value() * rhs.wide_value() < Self::wide_limit(),
        ensures
            r.wide_value() == self.wide_value() * rhs.wide_value(),
    ;
}

/// An unsigned integer with a double-width counterpart.
pub trait HasWide: Sized {
    type Wide: WideUint;

    /// The integer as a natural number.
    spec fn value(&self) -> nat;

    /// One more than the largest value of the type.
    spec fn limit() -> nat;

    /// Every value is below the limit, and the square of the limit fits the wide type.
    proof fn lemma_limits(&self)
        ensures
            self.value() < Self::limit(),
            Self::limit() * Self::limit() == <Self::Wide as WideUint>::wide_limit(),
            Self::limit() <= 0x1_0000_0000_0000_0000,
    ;

    /// The same value in the wide type.
    fn to_wide(self) -> (r: Self::Wide)
        ensures
            r.wide_value() == self.value(),
    ;

    /// The low half of a wide value.
    fn from_wide_unchecked(source: Self::Wide) -> (r: Self)
        ensures
            r.value() == source.wide_value() % Self::limit(),
    ;
}

/// A native unsigned integer that a field element can be stored in.
pub trait PrimitiveUint: HasWide + Copy {
    /// The integer zero.
    fn zero() -> (r: Self)
        ensures
            r.value() == 0,
    ;

    /// The integer one.
    fn one() -> (r: Self)
        ensures
            r.value() == 1,
    ;

    /// The given value, if it fits the type.
    fn from_u64(value: u64) -> (r: Option<Self>)
        ensures
            r is Some <==> value < Self::limit(),
            r matches Some(x) ==> x.value() == value,
    ;

    /// The value as a `u64`.
    fn to_u64(self) -> (r: u64)
        ensures
            r == self.value(),
    ;

    /// Addition modulo the limit of the type.
    fn wrapping_add(&self, rhs: &Self) -> (r: Self)
        ensures
            r.value() == (self.value() + rhs.value()) % Self::limit(),
    ;

    /// Subtraction modulo the limit of the type.
    fn wrapping_sub(&self, rhs: &Self) -> (r: Self)
        ensures
            r.value() == (self.value() - rhs.value()) % (Self::limit() as int),
    ;

    /// Shifts the value right by `shift` bits.
    fn shr(self, shift: u32) -> (r: Self)
        requires
            shift < 16,
        ensures
            r.value() == self.value() / pow2(shift as nat),
    ;

    /// The remainder of a wide value modulo `M`, whose top half must be below `M`.
    fn reduce_from_wide<const M: u64>(value: Self::Wide) -> (r: Self)
        requires
            0 < M < Self::limit(),
            value.wide_value() < M * Self::limit(),
        ensures
            r.value() == value.wide_value() % (M as nat),
    ;
}

proof fn lemma_wrap_add(x: int, limit: int)
    requires
        0 <= x < 2 * limit,
    ensures
        (if x >= limit {
            x - limit
        } else {
            x
        }) == x % limit,
{
    if x >= limit {
        vstd::arithmetic::div_mod::lemma_fundamental_div_mod_converse(x, limit, 1, x - limit);
    } else {
        vstd::arithmetic::div_mod::lemma_fundamental_div_mod_converse(x, limit, 0, x);
    }
}

proof fn lemma_wrap_sub(x: int, limit: int)
    requires
        -limit < x < limit,
    ensures
        (if x < 0 {
            x + limit
        } else {
            x
        }) == x % limit,
{
    if x < 0 {
        vstd::arithmetic::div_mod::lemma_fundamental_div_mod_converse(x, limit, -1, x + limit);
    } else {
        vstd::arithmetic::div_mod::lemma_fundamental_div_mod_converse(x, limit, 0, x);
    }
}

impl WideUint for u32 {
    open spec fn wide_value(&self) -> nat {
        *self as nat
    }

    open spec fn wide_limit() -> nat {
        0x1_0000_0000
    }

    fn wide_mul(self, rhs: Self) -> (r: Self) {
        self * rhs
    }
}

impl WideUint for u64 {
    open spec fn wide_value(&self) -> nat {
        *self as nat
    }

    open spec fn wide_limit() -> nat {
        0x1_0000_0000_0000_0000
    }

    fn wide_mul(self, rhs: Self) -> (r: Self) {
        self * rhs
    }
}

impl WideUint for u128 {
    open spec fn wide_value(&self) -> nat {
        *self as nat
    }

    open spec fn wide_limit() -> nat {
        0x1_0000_0000_0000_0000 * 0x1_0000_0000_0000_0000
    }

    fn wide_mul(self, rhs: Self) -> (r: Self) {
        self * rhs
    }
}

impl HasWide for u16 {
    type Wide = u32;

    open spec fn value(&self) -> nat {
        *self as nat
    }

    open spec fn limit() -> nat {
        0x1_0000
    }

    proof fn lemma_limits(&self) {
    }

    fn to_wide(self) -> (r: u32) {
        self as u32
    }

    fn from_wide_unchecked(source: u32) -> (r: u16) {
        proof {
            assert(source as u16 == source % 0x1_0000) by (bit_vector);
        }
        source as u16
    }
}

impl HasWide for u32 {
    type Wide = u64;

    open spec fn value(&self) -> nat {
        *self as nat
    }

    open spec fn limit() -> nat {
        0x1_0000_0000
    }

    proof fn lemma_limits(&self) {
    }

    fn to_wide(self) -> (r: u64) {
        self as u64
    }

    fn from_wide_unchecked(source: u64) -> (r: u32) {
        proof {
            assert(source as u32 == source % 0x1_0000_0000) by (bit_vector);
        }
        source as u32
    }
}

impl HasWide for u64 {
    type Wide = u128;

    open spec fn value(&self) -> nat {
        *self as nat
    }

    open spec fn limit() -> nat {
        0x1_0000_0000_0000_0000
    }

    proof fn lemma_limits(&self) {
    }

    fn to_wide(self) -> (r: u128) {
        self as u128
    }

    fn from_wide_unchecked(source: u128) -> (r: u64) {
        proof {
            assert(source as u64 == source % 0x1_0000_0000_0000_0000) by (bit_vector);
        }
        source as u64
    }
}

impl PrimitiveUint for u16 {
    fn zero() -> (r: u16) {
        0
    }

    fn one() -> (r: u16) {
        1
    }

    fn from_u64(value: u64) -> (r: Option<u16>) {
        if value < 0x1_0000 {
            Some(value as u16)
        } else {
            None
        }
    }

    fn to_u64(self) -> (r: u64) {
        self as u64
    }

    fn wrapping_add(&self, rhs: &u16) -> (r: u16) {
        proof {
            lemma_wrap_add(*self + *rhs, 0x1_0000);
        }
        u16::wrapping_add(*self, *rhs)
    }

    fn wrapping_sub(&self, rhs: &u16) -> (r: u16) {
        proof {
            lemma_wrap_sub(*self - *rhs, 0x1_0000);
        }
        u16::wrapping_sub(*self, *rhs)
    }

    fn shr(self, shift: u32) -> (r: u16) {
        proof {
            vstd::bits::lemma_u16_shr_is_div(self, shift as u16);
        }
        self >> (shift as u16)
    }

    fn reduce_from_wide<const M: u64>(value: u32) -> (r: u16) {
        (value % (M as u32)) as u16
    }
}

impl PrimitiveUint for u32 {
    fn zero() -> (r: u32) {
        0
    }

    fn one() -> (r: u32) {
        1
    }

    fn from_u64(value: u64) -> (r: Option<u32>) {
        if value < 0x1_0000_0000 {
            Some(value as u32)
        } else {
            None
        }
    }

    fn to_u64(self) -> (r: u64) {
        self as u64
    }

    fn wrapping_add(&self, rhs: &u32) -> (r: u32) {
        proof {
            lemma_wrap_add(*self + *rhs, 0x1_0000_0000);
        }
        u32::wrapping_add(*self, *rhs)
    }

    fn wrapping_sub(&self, rhs: &u32) -> (r: u32) {
        proof {
            lemma_wrap_sub(*self - *rhs, 0x1_0000_0000);
        }
        u32::wrapping_sub(*self, *rhs)
    }

    fn shr(self, shift: u32) -> (r: u32) {
        proof {
            vstd::bits::lemma_u32_shr_is_div(self, shift);
        }
        self >> shift
    }

    fn reduce_from_wide<const M: u64>(value: u64) -> (r: u32) {
        (value % (M as u64)) as u32
    }
}

impl PrimitiveUint for u64 {
    fn zero() -> (r: u64) {
        0
    }

    fn one() -> (r: u64) {
        1
    }

    fn from_u64(value: u64) -> (r: Option<u64>) {
        Some(value)
    }

    fn to_u64(self) -> (r: u64) {
        self as u64
    }

    fn wrapping_add(&self, rhs: &u64) -> (r: u64) {
        proof {
            lemma_wrap_add(*self + *rhs, 0x1_0000_0000_0000_0000);
        }
        u64::wrapping_add(*self, *rhs)
    }

    fn wrapping_sub(&self, rhs: &u64) -> (r: u64) {
        proof {
            lemma_wrap_sub(*self - *rhs, 0x1_0000_0000_0000_0000);
        }
        u64::wrapping_sub(*self, *rhs)
    }

    fn shr(self, shift: u32) -> (r: u64) {
        proof {
            vstd::bits::lemma_u64_shr_is_div(self, shift as u64);
        }
        self >> (shift as u64)
    }

    fn reduce_from_wide<const M: u64>(value: u128) -> (r: u64) {
        // This is the only width for which the reciprocal gives a speed-up.
        let reciprocal = Modulus::<u64, M>::reciprocal();
        rem_wide_with_reciprocal(value, &reciprocal)
    }
}

/// A marker type for the modulus `M` over the native integer `T`.
pub struct Modulus<T, const M: u64>(PhantomData<T>);

/// A modulus with a precomputed reciprocal for fast reduction.
pub trait HasReciprocal {
    /// The modulus the reciprocal is for.
    spec fn divisor() -> int;

    /// The reciprocal of the modulus.
    fn reciprocal() -> (r: Reciprocal)
        requires
            Self::divisor() > 0,
        ensures
            r.wf(),
            r.divisor() == Self::divisor(),
    ;
}

impl<const M: u64> HasReciprocal for Modulus<u64, M> {
    open spec fn divisor() -> int {
        M as int
    }

    fn reciprocal() -> (r: Reciprocal) {
        Reciprocal::new(M)
    }
}

/// The numeric facts a prime field publishes about its modulus, computed offline.
pub trait PrimeFieldConstants<T: PrimitiveUint> {
    /// The modulus.
    spec fn modulus_value() -> nat;

    /// The multiplicative generator.
    spec fn generator_value() -> nat;

    /// The `2^S`-th root of unity.
    spec fn root_value() -> nat;

    /// The 2-adic valuation `S` of `modulus − 1`.
    spec fn s_value() -> nat;

    /// The modulus in hexadecimal.
    fn modulus_str() -> (r: &'static str);

    /// The modulus.
    fn modulus() -> (r: T)
        ensures
            r.value() == Self::modulus_value(),
    ;

    /// The bit length of the modulus.
    fn num_bits() -> (r: u32)
        ensures
            r >= 1,
            pow2((r - 1) as nat) <= Self::modulus_value() < pow2(r as nat),
    ;

    /// The number of bits that every value below the modulus can hold.
    fn capacity() -> (r: u32)
        ensures
            pow2(r as nat) <= Self::modulus_value() < pow2((r + 1) as nat),
    ;

    /// The inverse of two.
    fn two_inv() -> (r: T)
        ensures
            r.value() < Self::modulus_value(),
            (2 * r.value()) % Self::modulus_value() == 1,
    ;

    /// A generator of the multiplicative group.
    fn multiplicative_generator() -> (r: T)
        ensures
            r.value() == Self::generator_value(),
            r.value() < Self::modulus_value(),
    ;

    /// The 2-adic valuation `S` of `modulus − 1`.
    fn s() -> (r: u32)
        ensures
            r == Self::s_value(),
    ;

    /// A `2^S`-th root of unity.
    fn root_of_unity() -> (r: T)
        ensures
            r.value() == Self::root_value(),
            r.value() < Self::modulus_value(),
            pow(r.value() as int, pow2(Self::s_value())) % (Self::modulus_value() as int) == 1,
    ;

    /// The inverse of the root of unity.
    fn root_of_unity_inv() -> (r: T)
        ensures
            r.value() < Self::modulus_value(),
            (r.value() * Self::root_value()) % Self::modulus_value() == 1,
    ;

    /// The generator raised to `2^S`.
    fn delta() -> (r: T)
        ensures
            r.value() == pow(Self::generator_value() as int, pow2(Self::s_value())) % (
            Self::modulus_value() as int),
    ;
}

} // verus!

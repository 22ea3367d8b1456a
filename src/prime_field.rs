//! The generic prime-field element: an integer in `[0, M)` stored in a native width `T`.
use crate::codec::{be_value, repr_to_u64, u64_to_repr};
use crate::primitives::{is_invertible, is_prime};
use crate::traits::{HasWide, PrimitiveUint};
use elliptic_curve::bigint::{NonZero, U192};
use vstd::arithmetic::power::pow;
use vstd::arithmetic::power2::pow2;
use vstd::prelude::*;

verus! {

/// Relies on crypto-bigint's `U192::from_be_slice` and `U192::rem`: the remainder of the
/// 24-byte big-endian integer `bytes` modulo a nonzero `divisor`. The remainder is below
/// the divisor, so the lowest 64-bit word of the result holds all of it.
#[verifier::external_body]
fn rem_repr(bytes: &[u8; 24], divisor: u64) -> (r: u64)
    requires
        divisor > 0,
    ensures
        r == be_value(bytes@) % (divisor as nat),
{
    let n = U192::from_be_slice(bytes);
    let d = NonZero::new(U192::from_u64(divisor)).unwrap();
    n.rem(&d).as_words()[0]
}

/// Halving and quartering by shifts.
proof fn lemma_shr_small(m: u64)
    by (bit_vector)
    ensures
        m >> 1 == m / 2,
        m >> 2 == m / 4,
{
}

/// Bit `i` of `x` by a shift and a mask.
proof fn lemma_bit(x: u64, i: u32)
    by (bit_vector)
    ensures
        x >> i == x >> (i as u64),
        (x >> i) & 1 == (x >> i) % 2,
{
}

/// An element of the prime field of order `M`, stored in the native integer `T`.
#[derive(Debug, Copy, PartialEq, Eq, PartialOrd, Ord, Hash)]
pub struct FieldElement<T: PrimitiveUint, const M: u64>(T);

impl<T: PrimitiveUint, const M: u64> Clone for FieldElement<T, M> {
    fn clone(&self) -> (r: Self)
        ensures
            r == *self,
    {
        *self
    }
}

impl<T: PrimitiveUint, const M: u64> FieldElement<T, M> {
    #[verifier::type_invariant]
    spec fn inv(self) -> bool {
        &&& self.0.value() < M
        &&& (M as nat) < T::limit()
    }

    /// The integer in `[0, M)` that the element stands for.
    pub closed spec fn value(self) -> nat {
        self.0.value()
    }

    /// Creates an element from a value known to be below the modulus.
    pub fn new_unchecked(value: T) -> (r: Self)
        requires
            value.value() < M,
            (M as nat) < T::limit(),
        ensures
            r.value() == value.value(),
    {
        Self(value)
    }

    /// Creates an element from a `u64` known to be below the modulus.
    pub fn new_unchecked_u64(value: u64) -> (r: Self)
        requires
            value < M,
            (M as nat) < T::limit(),
        ensures
            r.value() == value,
    {
        Self(T::from_u64(value).unwrap())
    }

    /// The value as a `u64`.
    pub fn to_u64(self) -> (r: u64)
        ensures
            r == self.value(),
    {
        self.0.to_u64()
    }

    /// The stored integer.
    pub fn to_uint(self) -> (r: T)
        ensures
            r.value() == self.value(),
    {
        self.0
    }

    /// The additive identity.
    pub fn zero() -> (r: Self)
        requires
            0 < M < T::limit(),
        ensures
            r.value() == 0,
    {
        Self(T::zero())
    }

    /// The multiplicative identity.
    pub fn one() -> (r: Self)
        requires
            1 < M < T::limit(),
        ensures
            r.value() == 1,
    {
        Self(T::one())
    }

    /// `self + rhs (mod M)`.
    pub fn add(&self, rhs: &Self) -> (r: Self)
        ensures
            r.value() == (self.value() + rhs.value()) % (M as nat),
    {
        proof {
            use_type_invariant(self);
            use_type_invariant(rhs);
        }
        let sum = crate::primitives::add::<T, M>(&self.0, &rhs.0);
        proof {
            vstd::arithmetic::div_mod::lemma_mod_bound((self.value() + rhs.value()) as int, M as int);
        }
        Self(sum)
    }

    /// `self − rhs (mod M)`.
    pub fn sub(&self, rhs: &Self) -> (r: Self)
        ensures
            r.value() == (self.value() - rhs.value()) % (M as int),
    {
        proof {
            use_type_invariant(self);
            use_type_invariant(rhs);
        }
        let diff = crate::primitives::sub::<T, M>(&self.0, &rhs.0);
        proof {
            vstd::arithmetic::div_mod::lemma_mod_bound(self.value() - rhs.value(), M as int);
        }
        Self(diff)
    }

    /// `self · rhs (mod M)`.
    pub fn mul(&self, rhs: &Self) -> (r: Self)
        ensures
            r.value() == (self.value() * rhs.value()) % (M as nat),
    {
        proof {
            use_type_invariant(self);
            use_type_invariant(rhs);
        }
        let product = crate::primitives::mul::<T, M>(&self.0, &rhs.0);
        proof {
            vstd::arithmetic::div_mod::lemma_mod_bound((self.value() * rhs.value()) as int, M as int);
        }
        Self(product)
    }

    /// `−self (mod M)`; zero stays zero.
    pub fn neg(&self) -> (r: Self)
        ensures
            r.value() == (M - self.value()) % (M as int),
            self.value() == 0 ==> r.value() == 0,
            self.value() != 0 ==> r.value() == M - self.value(),
    {
        proof {
            use_type_invariant(self);
        }
        let negated = crate::primitives::neg::<T, M>(&self.0);
        proof {
            vstd::arithmetic::div_mod::lemma_mod_bound(M - self.value(), M as int);
            if self.value() == 0 {
                vstd::arithmetic::div_mod::lemma_mod_self_0(M as int);
            } else {
                vstd::arithmetic::div_mod::lemma_small_mod((M - self.value()) as nat, M as nat);
            }
        }
        Self(negated)
    }

    /// `self · self (mod M)`.
    pub fn square(&self) -> (r: Self)
        ensures
            r.value() == (self.value() * self.value()) % (M as nat),
    {
        self.mul(self)
    }

    /// `self + self (mod M)`.
    pub fn double(&self) -> (r: Self)
        ensures
            r.value() == (self.value() + self.value()) % (M as nat),
    {
        self.add(self)
    }

    /// The multiplicative inverse, if there is one.
    ///
    /// Runs the extended Euclidean algorithm, whose number of steps depends on the value:
    /// this is not a constant-time operation.
    pub fn invert(&self) -> (r: Option<Self>)
        ensures
            r is Some <==> is_invertible(self.value() as int, M as int),
            r matches Some(x) ==> (x.value() * self.value()) % (M as nat) == 1,
            is_prime(M as int) ==> (r is Some <==> self.value() != 0),
    {
        proof {
            use_type_invariant(self);
        }
        match crate::primitives::modular_inverse::<T, M>(&self.0) {
            Some(inv) => Some(Self(inv)),
            None => None,
        }
    }

    /// `self^exp (mod M)`, by square-and-multiply over the bits of `exp` from the top.
    pub fn pow_vartime(&self, exp: u64) -> (r: Self)
        requires
            M > 1,
        ensures
            r.value() == pow(self.value() as int, exp as nat) % (M as int),
    {
        proof {
            use_type_invariant(self);
        }
        let ghost x = self.value() as int;
        let ghost m = M as int;
        let mut res = Self::one();
        let mut i: u32 = 64;
        proof {
            vstd::arithmetic::power2::lemma2_to64_rest();
            vstd::arithmetic::div_mod::lemma_basic_div(exp as int, pow2(64) as int);
            vstd::arithmetic::power::lemma_pow0(x);
            vstd::arithmetic::div_mod::lemma_small_mod(1, M as nat);
        }
        while i > 0
            invariant
                i <= 64,
                M > 1,
                x == self.value(),
                x < m,
                m == M,
                res.value() == pow(x, (exp as nat / pow2(i as nat))) % m,
            decreases i,
        {
            i -= 1;
            let ghost prefix = exp as nat / pow2((i + 1) as nat);
            let ghost next = exp as nat / pow2(i as nat);
            let bit = (exp >> i) & 1;
            proof {
                let y = exp >> i;
                vstd::bits::lemma_u64_shr_is_div(exp, i as u64);
                lemma_bit(exp, i);
                vstd::arithmetic::power2::lemma_pow2_pos(i as nat);
                vstd::arithmetic::power2::lemma_pow2_adds(i as nat, 1);
                vstd::arithmetic::power2::lemma2_to64();
                vstd::arithmetic::div_mod::lemma_div_denominator(exp as int, pow2(i as nat) as int, 2);
                vstd::arithmetic::div_mod::lemma_fundamental_div_mod(next as int, 2);
                assert(next == 2 * prefix + bit);
                vstd::arithmetic::power::lemma_pow_adds(x, prefix, prefix);
                vstd::arithmetic::power::lemma_pow_adds(x, 2 * prefix, 1);
                vstd::arithmetic::power::lemma_pow1(x);
                vstd::arithmetic::div_mod::lemma_mul_mod_noop(pow(x, prefix), pow(x, prefix), m);
                vstd::arithmetic::div_mod::lemma_mul_mod_noop_left(pow(x, 2 * prefix), x, m);
                vstd::arithmetic::div_mod::lemma_small_mod(x as nat, m as nat);
            }
            res = res.square();
            if bit == 1 {
                res = res.mul(self);
            }
        }
        proof {
            vstd::arithmetic::power2::lemma2_to64();
            vstd::arithmetic::div_mod::lemma_fundamental_div_mod_converse(exp as int, 1, exp as int, 0);
        }
        res
    }

    /// A candidate square root, `self^((M + 1) / 4)`, and whether its square is `self`.
    /// For `M ≡ 3 (mod 4)` the candidate is a root whenever `self` is a square.
    pub fn sqrt(&self) -> (r: (Self, bool))
        requires
            M % 4 == 3,
        ensures
            r.0.value() == pow(self.value() as int, (M as nat / 4 + 1) as nat) % (M as int),
            r.1 <==> (r.0.value() * r.0.value()) % (M as nat) == self.value(),
    {
        // All the moduli used are 3 mod 4, so the square root is an exponentiation.
        proof {
            lemma_shr_small(M);
        }
        let res = self.pow_vartime((M >> 2) + 1);
        let is_square = res.square().ct_eq(self);
        (res, is_square)
    }

    /// Whether the two elements are equal.
    pub fn ct_eq(&self, rhs: &Self) -> (r: bool)
        ensures
            r <==> self.value() == rhs.value(),
    {
        self.0.to_u64() == rhs.0.to_u64()
    }

    /// `rhs` if `choice` is set, `lhs` otherwise.
    pub fn conditional_select(lhs: &Self, rhs: &Self, choice: bool) -> (r: Self)
        ensures
            r.value() == if choice {
                rhs.value()
            } else {
                lhs.value()
            },
    {
        if choice {
            *rhs
        } else {
            *lhs
        }
    }

    /// Whether the value is odd.
    pub fn is_odd(&self) -> (r: bool)
        ensures
            r <==> self.value() % 2 == 1,
    {
        self.0.to_u64() % 2 == 1
    }

    /// Whether the value is above `M / 2`.
    pub fn is_high(&self) -> (r: bool)
        ensures
            r <==> self.value() > M / 2,
    {
        proof {
            lemma_shr_small(M);
        }
        self.to_u64() > (M >> 1)
    }

    /// Shifts the value right by `shift` bits.
    pub fn shr_assign(&mut self, shift: u32)
        requires
            shift < 16,
        ensures
            final(self).value() == old(self).value() / pow2(shift as nat),
    {
        proof {
            use_type_invariant(&*self);
            vstd::arithmetic::power2::lemma_pow2_pos(shift as nat);
            vstd::arithmetic::div_mod::lemma_div_is_ordered_by_denominator(
                self.value() as int,
                1,
                pow2(shift as nat) as int,
            );
            vstd::arithmetic::div_mod::lemma_fundamental_div_mod_converse(
                self.value() as int,
                1,
                self.value() as int,
                0,
            );
        }
        *self = Self(self.0.shr(shift));
    }

    /// The big-endian representation, right-aligned in 24 bytes.
    pub fn to_repr(&self) -> (r: [u8; 24])
        ensures
            be_value(r@) == self.value(),
    {
        u64_to_repr(self.to_u64())
    }

    /// Decodes a big-endian representation, if it encodes a value below `M`.
    pub fn from_repr(repr: [u8; 24]) -> (r: Option<Self>)
        requires
            (M as nat) < T::limit(),
        ensures
            r is Some <==> be_value(repr@) < M,
            r matches Some(x) ==> x.value() == be_value(repr@),
    {
        let (high_bits_are_zero, value) = repr_to_u64(&repr);
        if high_bits_are_zero && value < M {
            Some(Self::new_unchecked_u64(value))
        } else {
            None
        }
    }

    /// Reduces a 24-byte big-endian integer modulo `M`.
    pub fn reduce_bytes(bytes: &[u8; 24]) -> (r: Self)
        requires
            0 < M < T::limit(),
        ensures
            r.value() == be_value(bytes@) % (M as nat),
    {
        let reduced = rem_repr(bytes, M);
        proof {
            vstd::arithmetic::div_mod::lemma_mod_bound(be_value(bytes@) as int, M as int);
        }
        Self::new_unchecked_u64(reduced)
    }

    /// Reduces a 24-byte big-endian integer into `[1, M)`: modulo `M − 1`, plus one.
    pub fn reduce_nonzero_bytes(bytes: &[u8; 24]) -> (r: Self)
        requires
            1 < M < T::limit(),
        ensures
            r.value() == be_value(bytes@) % ((M - 1) as nat) + 1,
            r.value() != 0,
    {
        let reduced = rem_repr(bytes, M - 1);
        proof {
            vstd::arithmetic::div_mod::lemma_mod_bound(be_value(bytes@) as int, (M - 1) as int);
        }
        Self::new_unchecked_u64(reduced + 1)
    }
}

} // verus!

//! Algebraic laws of the field operations, stated over the values that the operations'
//! contracts speak of.
use crate::codec::be_value;
use crate::prime_field::FieldElement;
use crate::reciprocal::{word_base, Reciprocal};
use crate::traits::PrimitiveUint;
use vstd::prelude::*;

verus! {

/// Adding zero to an element leaves it unchanged, and adding its negation gives zero:
/// `x + 0 == x` and `x + (−x) == 0`, with `+` and `−` as `FieldElement::add` and
/// `FieldElement::neg` compute them.
pub proof fn lemma_additive_identity_inverse<T: PrimitiveUint, const M: u64>(
    x: FieldElement<T, M>,
)
    requires
        x.value() < M,
    ensures
        (x.value() + 0) % (M as nat) == x.value(),
        (x.value() + (M - x.value()) % (M as int)) % (M as int) == 0,
{
    vstd::arithmetic::div_mod::lemma_small_mod(x.value(), M as nat);
    if x.value() == 0 {
        vstd::arithmetic::div_mod::lemma_mod_self_0(M as int);
        vstd::arithmetic::div_mod::lemma_small_mod(0, M as nat);
    } else {
        vstd::arithmetic::div_mod::lemma_small_mod((M - x.value()) as nat, M as nat);
        vstd::arithmetic::div_mod::lemma_mod_self_0(M as int);
    }
}

/// Multiplication distributes over addition: `x·(y + z) == x·y + x·z`, with the
/// operations as `FieldElement::mul` and `FieldElement::add` compute them.
pub proof fn lemma_distributive<T: PrimitiveUint, const M: u64>(
    x: FieldElement<T, M>,
    y: FieldElement<T, M>,
    z: FieldElement<T, M>,
)
    requires
        x.value() < M,
        y.value() < M,
        z.value() < M,
    ensures
        (x.value() * ((y.value() + z.value()) % (M as nat))) % (M as nat) == ((x.value()
            * y.value()) % (M as nat) + (x.value() * z.value()) % (M as nat)) % (M as nat),
{
    let m = M as int;
    let (a, b, c) = (x.value() as int, y.value() as int, z.value() as int);
    vstd::arithmetic::div_mod::lemma_mul_mod_noop_right(a, b + c, m);
    vstd::arithmetic::mul::lemma_mul_is_distributive_add(a, b, c);
    vstd::arithmetic::div_mod::lemma_add_mod_noop(a * b, a * c, m);
}

/// A reciprocal made for a nonzero `m` admits every 128-bit `x` whose top 64 bits are
/// below `m`, and `rem_wide_with_reciprocal` then returns `x mod m`.
pub proof fn lemma_rem_wide_domain(x: u128, m: u64, reciprocal: Reciprocal)
    requires
        m > 0,
        reciprocal.divisor() == m,
        x / 0x1_0000_0000_0000_0000u128 < m,
    ensures
        x < reciprocal.divisor() * word_base(),
        (x as int) % reciprocal.divisor() == (x as int) % (m as int),
{
    let b = word_base();
    vstd::arithmetic::div_mod::lemma_fundamental_div_mod(x as int, b);
    vstd::arithmetic::div_mod::lemma_mod_bound(x as int, b);
    assert(x < (m as int) * b) by (nonlinear_arith)
        requires
            x == b * ((x as int) / b) + (x as int) % b,
            (x as int) % b < b,
            (x as int) / b + 1 <= m,
            b > 0,
    ;
}

/// Decoding the encoding of an element gives the element back, and the encoding of the
/// modulus itself is refused: the value that `to_repr` encodes passes the range check of
/// `from_repr`, and the value `M` does not.
pub proof fn lemma_repr_round_trip<T: PrimitiveUint, const M: u64>(
    x: FieldElement<T, M>,
    repr: Seq<u8>,
    modulus_repr: Seq<u8>,
)
    requires
        x.value() < M,
        be_value(repr) == x.value(),
        be_value(modulus_repr) == M,
    ensures
        be_value(repr) < M,
        be_value(repr) == x.value(),
        !(be_value(modulus_repr) < M),
{
}

} // verus!

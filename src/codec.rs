//! The fixed-width big-endian byte representation of field elements: a 64-bit value
//! right-aligned in a 24-byte envelope, zero-padded on the left.
use vstd::arithmetic::power2::pow2;
use vstd::prelude::*;

verus! {

/// The unsigned integer that the bytes `s` spell out in big-endian order.
pub open spec fn be_value(s: Seq<u8>) -> nat
    decreases s.len(),
{
    if s.len() == 0 {
        0
    } else {
        (be_value(s.drop_last()) * 256 + s.last()) as nat
    }
}

proof fn lemma_be_value_push(s: Seq<u8>, x: u8)
    ensures
        be_value(s.push(x)) == be_value(s) * 256 + x,
{
    assert(s.push(x).drop_last() =~= s);
}

/// Encodes `value` big-endian into the last eight bytes of a zeroed envelope.
pub fn u64_to_repr(value: u64) -> (r: [u8; 24])
    ensures
        be_value(r@) == value,
{
    let mut repr = [0u8; 24];
    let mut j: usize = 0;
    while j < 16
        invariant
            j <= 16,
            repr@.len() == 24,
            forall|i: int| 0 <= i < 24 ==> repr@[i] == 0,
            be_value(repr@.take(j as int)) == 0,
        decreases 16 - j,
    {
        proof {
            assert(repr@.take(j + 1) =~= repr@.take(j as int).push(repr@[j as int]));
            lemma_be_value_push(repr@.take(j as int), repr@[j as int]);
        }
        j += 1;
    }
    proof {
        vstd::arithmetic::power2::lemma2_to64_rest();
        vstd::arithmetic::div_mod::lemma_basic_div(value as int, pow2(64) as int);
    }
    while j < 24
        invariant
            16 <= j <= 24,
            repr@.len() == 24,
            forall|i: int| j <= i < 24 ==> repr@[i] == 0,
            be_value(repr@.take(j as int)) == value as nat / pow2((8 * (24 - j)) as nat),
        decreases 24 - j,
    {
        let shift: u32 = (8 * (23 - j)) as u32;
        let byte = ((value >> shift) & 0xff) as u8;
        proof {
            let x = value >> shift;
            assert(x & 0xff == x % 256) by (bit_vector);
            vstd::bits::lemma_u64_shr_is_div(value, shift as u64);
            assert(value >> shift == value >> (shift as u64)) by (bit_vector);
            vstd::arithmetic::power2::lemma_pow2_pos(shift as nat);
            vstd::arithmetic::power2::lemma_pow2_adds(shift as nat, 8);
            vstd::arithmetic::power2::lemma2_to64();
            vstd::arithmetic::div_mod::lemma_div_denominator(
                value as int,
                pow2(shift as nat) as int,
                256,
            );
            vstd::arithmetic::div_mod::lemma_fundamental_div_mod(x as int, 256);
            assert(pow2(shift as nat) * 256 == pow2((8 * (24 - j)) as nat));
            assert((value as nat / pow2((8 * (24 - j)) as nat)) * 256 + byte == x);
        }
        let ghost before = repr@;
        repr[j] = byte;
        proof {
            assert(repr@.take(j as int) =~= before.take(j as int));
            assert(repr@.take(j + 1) =~= repr@.take(j as int).push(byte));
            lemma_be_value_push(repr@.take(j as int), byte);
        }
        j += 1;
    }
    proof {
        assert(repr@.take(24) =~= repr@);
        vstd::arithmetic::power2::lemma2_to64();
        assert(pow2((8 * (24 - j)) as nat) == 1);
        vstd::arithmetic::div_mod::lemma_fundamental_div_mod_converse(value as int, 1, value as int, 0);
    }
    repr
}

/// Splits an envelope into whether its sixteen high bytes are zero and the value of
/// its last eight bytes.
pub fn repr_to_u64(repr: &[u8; 24]) -> (r: (bool, u64))
    ensures
        r.0 ==> be_value(repr@) == r.1,
        !r.0 ==> be_value(repr@) >= 0x1_0000_0000_0000_0000,
{
    let mut high_bits_are_zero = true;
    let mut j: usize = 0;
    while j < 16
        invariant
            j <= 16,
            repr@.len() == 24,
            high_bits_are_zero <==> be_value(repr@.take(j as int)) == 0,
        decreases 16 - j,
    {
        proof {
            assert(repr@.take(j + 1) =~= repr@.take(j as int).push(repr@[j as int]));
            lemma_be_value_push(repr@.take(j as int), repr@[j as int]);
        }
        if repr[j] != 0 {
            high_bits_are_zero = false;
        }
        j += 1;
    }
    let ghost high = be_value(repr@.take(16));
    let mut value: u64 = 0;
    proof {
        vstd::arithmetic::power2::lemma2_to64();
        assert(j == 16);
        assert(pow2((8 * (j - 16)) as nat) == 1);
        assert(high * pow2((8 * (j - 16)) as nat) == high);
    }
    while j < 24
        invariant
            16 <= j <= 24,
            repr@.len() == 24,
            high == be_value(repr@.take(16)),
            be_value(repr@.take(j as int)) == high * pow2((8 * (j - 16)) as nat) + value,
            value < pow2((8 * (j - 16)) as nat),
        decreases 24 - j,
    {
        let ghost p = pow2((8 * (j - 16)) as nat);
        proof {
            vstd::arithmetic::power2::lemma_pow2_adds((8 * (j - 16)) as nat, 8);
            vstd::arithmetic::power2::lemma2_to64();
            vstd::arithmetic::power2::lemma2_to64_rest();
            vstd::arithmetic::power2::lemma_pow2_strictly_increases(
                (8 * (j - 16)) as nat,
                64,
            );
            assert(value * 256 + repr@[j as int] < p * 256) by (nonlinear_arith)
                requires
                    value < p,
                    repr@[j as int] < 256,
            ;
            assert(p * 256 <= 0x1_0000_0000_0000_0000) by (nonlinear_arith)
                requires
                    p <= 0x100_0000_0000_0000,
            ;
            assert((high * p + value) * 256 + repr@[j as int] == high * (p * 256) + (value * 256
                + repr@[j as int])) by (nonlinear_arith);
            assert(repr@.take(j + 1) =~= repr@.take(j as int).push(repr@[j as int]));
            lemma_be_value_push(repr@.take(j as int), repr@[j as int]);
        }
        value = value * 256 + repr[j] as u64;
        j += 1;
    }
    proof {
        assert(repr@.take(24) =~= repr@);
        vstd::arithmetic::power2::lemma2_to64_rest();
        assert(high * pow2(64) >= (if high_bits_are_zero {
            0
        } else {
            0x1_0000_0000_0000_0000int
        })) by (nonlinear_arith)
            requires
                pow2(64) == 0x1_0000_0000_0000_0000,
                high_bits_are_zero <==> high == 0,
                high >= 0,
        ;
    }
    (high_bits_are_zero, value)
}

} // verus!

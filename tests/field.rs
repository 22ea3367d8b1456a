use elliptic_curve::bigint::{Encoding, U192};
use tiny_curve::curve16::{self, TinyCurve16};
use tiny_curve::curve32::{self, TinyCurve32};
use tiny_curve::curve64::{self, TinyCurve64};
use tiny_curve::prime_field::FieldElement;
use tiny_curve::primitives::modular_inverse;
use tiny_curve::reciprocal::{rem_wide_with_reciprocal, Reciprocal};
use tiny_curve::traits::{HasWide, Modulus, PrimeFieldConstants, PrimitiveUint};

type Fe16 = FieldElement<u16, { curve16::FIELD_MODULUS }>;
type Sc16 = FieldElement<u16, { curve16::ORDER }>;
type Sc32 = FieldElement<u32, { curve32::ORDER }>;
type Fe32 = FieldElement<u32, { curve32::FIELD_MODULUS }>;
type Fe64 = FieldElement<u64, { curve64::FIELD_MODULUS }>;
type Sc64 = FieldElement<u64, { curve64::ORDER }>;

/// A small deterministic generator of test inputs.
struct XorShift(u64);

impl XorShift {
    fn next(&mut self) -> u64 {
        let mut x = self.0;
        x ^= x << 13;
        x ^= x >> 7;
        x ^= x << 17;
        self.0 = x;
        x
    }

    fn next_u128(&mut self) -> u128 {
        ((self.next() as u128) << 64) | (self.next() as u128)
    }
}

fn repr_of(value: u64) -> [u8; 24] {
    let mut repr = [0u8; 24];
    repr[16..].copy_from_slice(&value.to_be_bytes());
    repr
}

#[test]
fn inverse_of_zero() {
    const M: u64 = 0xfffffffffffffe95u64;
    assert!(modular_inverse::<u64, M>(&0).is_none());
}

#[test]
fn inverse() {
    // a prime, so there's always an inverse for non-zero `x`
    const M: u64 = 0xfffffffffffffe95u64;
    let mut rng = XorShift(0x1234_5678_9abc_def1);
    for _ in 0..2000 {
        let x = rng.next();
        let x = if x == 0 { 1 } else { x };
        let inv = modular_inverse::<u64, M>(&x).unwrap();
        let should_be_one = ((inv as u128) * (x as u128) % (M as u128)) as u64;
        assert_eq!(should_be_one, 1);
    }
}

#[test]
fn rem() {
    let mut rng = XorShift(0x0bad_cafe_dead_beef);
    for _ in 0..5000 {
        let x = rng.next_u128();
        let m = rng.next();
        let m = if m == 0 { 1 } else { m };
        let t = x % ((m as u128) * (m as u128));
        let expected = (t % (m as u128)) as u64;
        let test = rem_wide_with_reciprocal(t, &Reciprocal::new(m));
        assert_eq!(test, expected);
    }
}

#[test]
fn rem_small_and_large_divisors() {
    for m in [1u64, 2, 3, 7, 0xff, 0x1_0000_0001, u64::MAX - 1, u64::MAX] {
        let mut rng = XorShift(m ^ 0x5555_5555_5555_5555);
        for _ in 0..500 {
            let x = rng.next_u128() % ((m as u128) << 64);
            assert_eq!(rem_wide_with_reciprocal(x, &Reciprocal::new(m)) as u128, x % (m as u128));
        }
    }
}

#[test]
fn curve16_to_and_from_repr() {
    // `s` now contains the value `M - 1`.
    let s = Sc16::new_unchecked(1).neg();
    let s_uint = U192::from_u64(s.to_u64());

    // Check that to_repr/from_repr work normally
    let repr = s_uint.to_be_bytes();
    let s_repr = s.to_repr();
    assert_eq!(repr, s_repr);
    assert_eq!(Sc16::from_repr(repr).unwrap(), s);

    // Now construct a representation of the value `M` (which would be out of range)
    let x_uint = s_uint.wrapping_add(&U192::ONE);
    let repr = x_uint.to_be_bytes();
    assert!(Sc16::from_repr(repr).is_none());
}

#[test]
fn curve32_to_and_from_repr() {
    // `s` now contains the value `M - 1`.
    let s = Sc32::new_unchecked(1).neg();
    let s_uint = U192::from_u64(s.to_u64());

    // Check that to_repr/from_repr work normally
    let repr = s_uint.to_be_bytes();
    let s_repr = s.to_repr();
    assert_eq!(repr, s_repr);
    assert_eq!(Sc32::from_repr(repr).unwrap(), s);

    // Now construct a representation of the value `M` (which would be out of range)
    let x_uint = s_uint.wrapping_add(&U192::ONE);
    let repr = x_uint.to_be_bytes();
    assert!(Sc32::from_repr(repr).is_none());
}

#[test]
fn field16_addition_wraps_at_modulus() {
    let a = Fe16::new_unchecked_u64(0xffa6);
    let one = Fe16::new_unchecked_u64(1);
    assert_eq!(a.add(&one), Fe16::zero());
    assert_eq!(a.add(&one).to_u64(), 0);
}

#[test]
fn field16_inverse_of_five() {
    let x = Fe16::new_unchecked_u64(5).invert().unwrap();
    assert_eq!((5 * x.to_u64()) % 0xffa7, 1);
    assert_eq!(x.mul(&Fe16::new_unchecked_u64(5)), Fe16::one());
}

#[test]
fn field64_reduction_through_reciprocal() {
    let a = 0xfffffffffffffc7eu64;
    let expected = ((a as u128) * (a as u128) % (curve64::FIELD_MODULUS as u128)) as u64;
    let x = Fe64::new_unchecked_u64(a);
    assert_eq!(x.mul(&x).to_u64(), expected);
    assert_eq!(x.square().to_u64(), expected);
    assert_eq!(expected, 1);
    let product = (a as u128) * (a as u128);
    assert_eq!(
        rem_wide_with_reciprocal(product, &Reciprocal::new(curve64::FIELD_MODULUS)),
        expected
    );
    assert_eq!(u64::reduce_from_wide::<{ curve64::FIELD_MODULUS }>(product), expected);
}

#[test]
fn additive_identity_and_inverse() {
    let mut rng = XorShift(77);
    for _ in 0..1000 {
        let v = rng.next();
        let x = Fe64::new_unchecked_u64(v % curve64::FIELD_MODULUS);
        assert_eq!(x.add(&Fe64::zero()), x);
        assert_eq!(x.add(&x.neg()), Fe64::zero());
        let y = Fe16::new_unchecked_u64(v % curve16::FIELD_MODULUS);
        assert_eq!(y.add(&Fe16::zero()), y);
        assert_eq!(y.add(&y.neg()), Fe16::zero());
        let z = Sc32::new_unchecked_u64(v % curve32::ORDER);
        assert_eq!(z.add(&Sc32::zero()), z);
        assert_eq!(z.add(&z.neg()), Sc32::zero());
    }
    assert_eq!(Fe64::zero().neg(), Fe64::zero());
}

#[test]
fn multiplicative_inverse() {
    let mut rng = XorShift(99);
    for _ in 0..1000 {
        let v = rng.next();
        let x = Sc64::new_unchecked_u64(v % curve64::ORDER);
        if x.to_u64() != 0 {
            assert_eq!(x.mul(&x.invert().unwrap()), Sc64::one());
        }
        let y = Fe32::new_unchecked_u64(v % curve32::FIELD_MODULUS);
        if y.to_u64() != 0 {
            assert_eq!(y.mul(&y.invert().unwrap()), Fe32::one());
        }
    }
    assert!(Sc64::zero().invert().is_none());
    assert!(Fe16::zero().invert().is_none());
    assert!(modular_inverse::<u16, 1>(&0).is_none());
    assert!(modular_inverse::<u16, 12>(&8).is_none());
    assert_eq!(modular_inverse::<u16, 12>(&5), Some(5));
}

#[test]
fn reduction_matches_reference() {
    let mut rng = XorShift(1234);
    for _ in 0..2000 {
        let m = curve64::ORDER;
        let (a, b) = (rng.next() % m, rng.next() % m);
        let expected = ((a as u128) * (b as u128) % (m as u128)) as u64;
        assert_eq!(u64::reduce_from_wide::<{ curve64::ORDER }>(a.to_wide() * b.to_wide()), expected);
        let m = curve32::FIELD_MODULUS;
        let (a, b) = ((a % m) as u32, (b % m) as u32);
        let expected = ((a as u64) * (b as u64) % m) as u32;
        assert_eq!(
            u32::reduce_from_wide::<{ curve32::FIELD_MODULUS }>(a.to_wide() * b.to_wide()),
            expected
        );
    }
}

#[test]
fn square_roots() {
    let mut rng = XorShift(4242);
    let mut found = 0;
    let total = 1000;
    for _ in 0..total {
        let x = Fe64::new_unchecked_u64(rng.next() % curve64::FIELD_MODULUS);
        let (r, is_square) = x.sqrt();
        assert_eq!(is_square, r.mul(&r) == x);
        if is_square {
            found += 1;
        }
    }
    assert!(found > total * 4 / 10 && found < total * 6 / 10, "{found}");
    let four = Fe16::new_unchecked_u64(4);
    let (r, is_square) = four.sqrt();
    assert!(is_square);
    assert!(r.to_u64() == 2 || r.to_u64() == curve16::FIELD_MODULUS - 2);
    // The generator of the multiplicative group is not a square.
    let g = Fe16::new_unchecked_u64(5);
    let (r, is_square) = g.sqrt();
    assert!(!is_square);
    assert_ne!(r.mul(&r), g);
}

#[test]
fn repr_round_trip() {
    let mut rng = XorShift(31337);
    for _ in 0..1000 {
        let x = Sc64::new_unchecked_u64(rng.next() % curve64::ORDER);
        assert_eq!(Sc64::from_repr(x.to_repr()), Some(x));
        let y = Fe16::new_unchecked_u64(rng.next() % curve16::FIELD_MODULUS);
        assert_eq!(Fe16::from_repr(y.to_repr()), Some(y));
    }
    assert!(Fe64::from_repr(repr_of(curve64::FIELD_MODULUS)).is_none());
    assert!(Fe16::from_repr(repr_of(curve16::FIELD_MODULUS)).is_none());
    let mut high = repr_of(1);
    high[0] = 1;
    assert!(Fe64::from_repr(high).is_none());
    let mut high = repr_of(1);
    high[15] = 0x80;
    assert!(Fe16::from_repr(high).is_none());
}

#[test]
fn repr_layout() {
    let x = Fe32::new_unchecked_u64(0x0102_0304);
    let mut expected = [0u8; 24];
    expected[20..].copy_from_slice(&[1, 2, 3, 4]);
    assert_eq!(x.to_repr(), expected);
}

#[test]
fn distributivity() {
    let mut rng = XorShift(2718);
    for _ in 0..1000 {
        let m = curve64::FIELD_MODULUS;
        let (x, y, z) = (
            Fe64::new_unchecked_u64(rng.next() % m),
            Fe64::new_unchecked_u64(rng.next() % m),
            Fe64::new_unchecked_u64(rng.next() % m),
        );
        assert_eq!(x.mul(&y.add(&z)), x.mul(&y).add(&x.mul(&z)));
        let m = curve16::ORDER;
        let (x, y, z) = (
            Sc16::new_unchecked_u64(rng.next() % m),
            Sc16::new_unchecked_u64(rng.next() % m),
            Sc16::new_unchecked_u64(rng.next() % m),
        );
        assert_eq!(x.mul(&y.add(&z)), x.mul(&y).add(&x.mul(&z)));
    }
}

#[test]
fn subtraction_and_doubling() {
    let a = Fe16::new_unchecked_u64(3);
    let b = Fe16::new_unchecked_u64(5);
    assert_eq!(a.sub(&b).to_u64(), curve16::FIELD_MODULUS - 2);
    assert_eq!(b.sub(&a).to_u64(), 2);
    let c = Fe64::new_unchecked_u64(curve64::FIELD_MODULUS - 1);
    assert_eq!(c.double().to_u64(), curve64::FIELD_MODULUS - 2);
    assert_eq!(c.sub(&c), Fe64::zero());
}

#[test]
fn exponentiation() {
    let three = Fe32::new_unchecked_u64(3);
    assert_eq!(three.pow_vartime(5).to_u64(), 243);
    assert_eq!(three.pow_vartime(0), Fe32::one());
    // Fermat: x^(p-1) == 1.
    let x = Fe64::new_unchecked_u64(123456789);
    assert_eq!(x.pow_vartime(curve64::FIELD_MODULUS - 1), Fe64::one());
}

#[test]
fn predicates_and_selection() {
    let m = curve16::FIELD_MODULUS;
    assert!(Fe16::new_unchecked_u64(m / 2 + 1).is_high());
    assert!(!Fe16::new_unchecked_u64(m / 2).is_high());
    assert!(Fe16::new_unchecked_u64(7).is_odd());
    assert!(!Fe16::new_unchecked_u64(8).is_odd());
    let a = Fe16::new_unchecked_u64(7);
    let b = Fe16::new_unchecked_u64(8);
    assert!(a.ct_eq(&Fe16::new_unchecked_u64(7)));
    assert!(!a.ct_eq(&b));
    assert_eq!(Fe16::conditional_select(&a, &b, true), b);
    assert_eq!(Fe16::conditional_select(&a, &b, false), a);
    let mut c = Fe64::new_unchecked_u64(0x100);
    c.shr_assign(4);
    assert_eq!(c.to_u64(), 0x10);
}

#[test]
fn reduction_of_bytes() {
    let m = curve64::ORDER;
    assert_eq!(Sc64::reduce_bytes(&repr_of(m)).to_u64(), 0);
    assert_eq!(Sc64::reduce_bytes(&repr_of(m + 5)).to_u64(), 5);
    let mut big = [0xffu8; 24];
    big[0] = 0x7f;
    let n = U192::from_be_slice(&big);
    let expected = n.rem(&elliptic_curve::bigint::NonZero::new(U192::from_u64(m)).unwrap());
    assert_eq!(Sc64::reduce_bytes(&big).to_u64(), expected.as_words()[0]);
    assert_eq!(Sc16::reduce_bytes(&repr_of(0x1_0000)).to_u64(), 0x1_0000 % curve16::ORDER);
    assert_eq!(Sc64::reduce_nonzero_bytes(&repr_of(m - 1)).to_u64(), 1);
    assert_eq!(Sc64::reduce_nonzero_bytes(&repr_of(0)).to_u64(), 1);
    assert_eq!(Sc64::reduce_nonzero_bytes(&repr_of(m - 2)).to_u64(), m - 1);
}

#[test]
fn field_constants() {
    type C16 = Modulus<u16, { curve16::FIELD_MODULUS }>;
    let two_inv = Fe16::new_unchecked(C16::two_inv());
    assert_eq!(two_inv.double(), Fe16::one());
    assert_eq!(C16::modulus(), 0xffa7);
    assert_eq!(C16::modulus_str(), "0xffa7");
    assert_eq!(C16::num_bits(), 16);
    assert_eq!(C16::capacity(), 15);
    let root = Fe16::new_unchecked(C16::root_of_unity());
    assert_eq!(root.square(), Fe16::one());
    assert_eq!(root.mul(&Fe16::new_unchecked(C16::root_of_unity_inv())), Fe16::one());
    let g = Fe16::new_unchecked(C16::multiplicative_generator());
    assert_eq!(g.square().to_u64(), C16::delta() as u64);

    type C64 = Modulus<u64, { curve64::ORDER }>;
    let two_inv = Sc64::new_unchecked(C64::two_inv());
    assert_eq!(two_inv.double(), Sc64::one());
    assert_eq!(C64::s(), 1);
    assert_eq!(C64::modulus_str(), "0xffffffff1a0a85df");
}

#[test]
fn generators_lie_on_their_curves() {
    let (x, y) = TinyCurve16::generator();
    let rhs = x.square().mul(&x).add(&TinyCurve16::equation_a().mul(&x)).add(&TinyCurve16::equation_b());
    assert_eq!(y.square(), rhs);
    let (x, y) = TinyCurve32::generator();
    let rhs = x.square().mul(&x).add(&TinyCurve32::equation_a().mul(&x)).add(&TinyCurve32::equation_b());
    assert_eq!(y.square(), rhs);
    let (x, y) = TinyCurve64::generator();
    let rhs = x.square().mul(&x).add(&TinyCurve64::equation_a().mul(&x)).add(&TinyCurve64::equation_b());
    assert_eq!(y.square(), rhs);
    assert_eq!(TinyCurve64::order(), 0xffffffff1a0a85df);
    assert_eq!(TinyCurve16::equation_a().to_u64(), curve16::FIELD_MODULUS - 3);
}

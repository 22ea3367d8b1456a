//! Modular arithmetic on native integers already reduced modulo `M`.
use crate::traits::{HasWide, PrimitiveUint, WideUint};
use vstd::prelude::*;

verus! {

/// `lhs + rhs (mod M)` for reduced operands: one wrapping addition and at most one
/// subtraction of the modulus, chosen by a comparison rather than a loop.
pub fn add<T: PrimitiveUint, const M: u64>(lhs: &T, rhs: &T) -> (r: T)
    requires
        (M as nat) < T::limit(),
        lhs.value() < M,
        rhs.value() < M,
    ensures
        r.value() == (lhs.value() + rhs.value()) % (M as nat),
{
    let modulus = T::from_u64(M).unwrap();
    let result = lhs.wrapping_add(rhs);
    proof {
        let l = T::limit() as int;
        let s = (lhs.value() + rhs.value()) as int;
        lhs.lemma_limits();
        modulus.lemma_limits();
        lemma_small_mod(s, l);
        lemma_small_mod(s, M as int);
        if s >= l {
            lemma_small_mod(s - l - M, l);
        } else if s >= M {
            lemma_small_mod(s - M, l);
        }
    }
    if result.to_u64() >= M || result.to_u64() < lhs.to_u64() {
        result.wrapping_sub(&modulus)
    } else {
        result
    }
}

/// `lhs − rhs (mod M)` for reduced operands: one wrapping subtraction, and the modulus
/// added back when it wrapped.
pub fn sub<T: PrimitiveUint, const M: u64>(lhs: &T, rhs: &T) -> (r: T)
    requires
        (M as nat) < T::limit(),
        lhs.value() < M,
        rhs.value() < M,
    ensures
        r.value() == (lhs.value() - rhs.value()) % (M as int),
{
    let modulus = T::from_u64(M).unwrap();
    let result = lhs.wrapping_sub(rhs);
    proof {
        let l = T::limit() as int;
        let s = lhs.value() - rhs.value();
        lemma_small_mod(s, l);
        if s < 0 {
            lemma_small_mod(s + M, M as int);
            lemma_small_mod(s + l + M, l);
            vstd::arithmetic::div_mod::lemma_fundamental_div_mod_converse(s, M as int, -1, s + M);
        } else {
            lemma_small_mod(s, M as int);
        }
    }
    if lhs.to_u64() < rhs.to_u64() {
        result.wrapping_add(&modulus)
    } else {
        result
    }
}

/// `lhs · rhs (mod M)` for reduced operands: a double-width product, reduced.
pub fn mul<T: PrimitiveUint, const M: u64>(lhs: &T, rhs: &T) -> (r: T)
    requires
        0 < M < T::limit(),
        lhs.value() < M,
        rhs.value() < M,
    ensures
        r.value() == (lhs.value() * rhs.value()) % (M as nat),
{
    proof {
        lhs.lemma_limits();
        assert(lhs.value() * rhs.value() < (M as nat) * T::limit()) by (nonlinear_arith)
            requires
                lhs.value() < M,
                rhs.value() < M,
                (M as nat) < T::limit(),
        ;
        assert((M as nat) * T::limit() <= T::limit() * T::limit()) by (nonlinear_arith)
            requires
                (M as nat) < T::limit(),
        ;
    }
    T::reduce_from_wide::<M>(lhs.to_wide().wide_mul(rhs.to_wide()))
}

/// `−arg (mod M)` for a reduced operand; zero stays zero rather than becoming `M`.
pub fn neg<T: PrimitiveUint, const M: u64>(arg: &T) -> (r: T)
    requires
        (M as nat) < T::limit(),
        arg.value() < M,
    ensures
        r.value() == (M - arg.value()) % (M as int),
{
    if arg.to_u64() == 0 {
        proof {
            vstd::arithmetic::div_mod::lemma_fundamental_div_mod_converse(M as int, M as int, 1, 0);
        }
        T::zero()
    } else {
        let modulus = T::from_u64(M).unwrap();
        proof {
            lemma_small_mod(M - arg.value(), T::limit() as int);
            lemma_small_mod(M - arg.value(), M as int);
        }
        modulus.wrapping_sub(arg)
    }
}

/// `x % m` is `x` itself, or `x ± m`, when `x` is within `m` of the range `[0, m)`.
proof fn lemma_small_mod(x: int, m: int)
    requires
        m > 0,
        -m <= x < 2 * m,
    ensures
        0 <= x < m ==> x % m == x,
        m <= x ==> x % m == x - m,
        x < 0 ==> x % m == x + m,
{
    if 0 <= x < m {
        vstd::arithmetic::div_mod::lemma_fundamental_div_mod_converse(x, m, 0, x);
    } else if m <= x {
        vstd::arithmetic::div_mod::lemma_fundamental_div_mod_converse(x, m, 1, x - m);
    } else {
        vstd::arithmetic::div_mod::lemma_fundamental_div_mod_converse(x, m, -1, x + m);
    }
}

/// `d` divides `x`.
pub open spec fn divides(d: int, x: int) -> bool {
    x % d == 0
}

/// `x` has an inverse modulo `m`.
pub open spec fn is_invertible(x: int, m: int) -> bool {
    exists|y: int| 0 <= y < m && #[trigger] ((y * x) % m) == 1
}

/// `m` is a prime number.
pub open spec fn is_prime(m: int) -> bool {
    &&& m > 1
    &&& forall|d: int| 1 < d < m ==> #[trigger] (m % d) != 0
}

/// A common divisor `a > 1` of a prime `m` and of `x` in `(0, m)` cannot exist.
proof fn lemma_prime_no_common_divisor(a: int, x: int, m: int)
    requires
        a > 1,
        is_prime(m),
        0 < x < m,
    ensures
        !(divides(a, x) && divides(a, m)),
{
    if divides(a, x) && divides(a, m) {
    vstd::arithmetic::div_mod::lemma_fundamental_div_mod(m, a);
    vstd::arithmetic::div_mod::lemma_fundamental_div_mod(x, a);
    assert(a <= x) by (nonlinear_arith)
        requires
            x == a * (x / a) + x % a,
            x % a == 0,
            x > 0,
            a > 1,
    ;
    assert(m % a != 0);
    }
}

/// A magnitude and a sign, for the cofactors of the extended Euclidean algorithm.
#[derive(Clone, Copy)]
struct Signed {
    value: u64,
    is_negative: bool,
}

impl Signed {
    spec fn as_int(self) -> int {
        if self.is_negative {
            -(self.value as int)
        } else {
            self.value as int
        }
    }
}

/// Every common divisor of `a` and `b` divides both `x` and `m`.
spec fn divisors_kept(a: int, b: int, x: int, m: int) -> bool {
    forall|d: int|
        0 < d && #[trigger] divides(d, a) && divides(d, b) ==> divides(d, x) && divides(d, m)
}

proof fn lemma_divisors_step(a: int, b: int, x: int, m: int)
    requires
        a >= 0,
        b > 0,
        divisors_kept(a, b, x, m),
    ensures
        divisors_kept(b, a % b, x, m),
{
    assert forall|d: int| 0 < d && #[trigger] divides(d, b) && divides(d, a % b) implies divides(
        d,
        x,
    ) && divides(d, m) by {
        vstd::arithmetic::div_mod::lemma_fundamental_div_mod(a, b);
        vstd::arithmetic::div_mod::lemma_fundamental_div_mod(b, d);
        vstd::arithmetic::div_mod::lemma_fundamental_div_mod(a % b, d);
        let i = b / d;
        let j = (a % b) / d;
        assert(a == d * ((a / b) * i + j)) by (nonlinear_arith)
            requires
                a == b * (a / b) + a % b,
                b == d * i,
                a % b == d * j,
        ;
        vstd::arithmetic::div_mod::lemma_mod_multiples_basic((a / b) * i + j, d);
        assert(d * ((a / b) * i + j) == ((a / b) * i + j) * d) by (nonlinear_arith);
        assert(divides(d, a));
    }
}

/// No inverse modulo `m` exists when `x` and `m` share a divisor `a > 1`.
proof fn lemma_no_inverse(a: int, x: int, m: int)
    requires
        a > 1,
        m > 1,
        divides(a, x),
        divides(a, m),
    ensures
        !is_invertible(x, m),
{
    if is_invertible(x, m) {
        let y = choose|y: int| 0 <= y < m && #[trigger] ((y * x) % m) == 1;
        vstd::arithmetic::div_mod::lemma_fundamental_div_mod(y * x, m);
        vstd::arithmetic::div_mod::lemma_fundamental_div_mod(x, a);
        vstd::arithmetic::div_mod::lemma_fundamental_div_mod(m, a);
        let t = (y * x) / m;
        let i = x / a;
        let j = m / a;
        assert(a * (y * i - t * j) == 1) by (nonlinear_arith)
            requires
                y * x == m * t + 1,
                x == a * i,
                m == a * j,
        ;
        assert(false) by (nonlinear_arith)
            requires
                a * (y * i - t * j) == 1,
                a > 1,
        ;
    }
}

/// The next cofactor `x1 − q·x0` of the extended Euclidean algorithm.
fn next_cofactor(x0: Signed, x1: Signed, q: u64, bound: Ghost<int>) -> (r: Signed)
    requires
        q * x0.value <= bound@,
        x1.value + q * x0.value <= bound@,
        bound@ < 0x1_0000_0000_0000_0000,
    ensures
        r.as_int() == x1.as_int() - q * x0.as_int(),
        r.value <= x1.value + q * x0.value,
{
    let qx0 = q * x0.value;
    let mut r = x0;
    if x0.is_negative != x1.is_negative {
        r.value = x1.value + qx0;
        r.is_negative = x1.is_negative;
    } else if x1.value > qx0 {
        r.value = x1.value - qx0;
        r.is_negative = x1.is_negative;
    } else {
        r.value = qx0 - x1.value;
        r.is_negative = !x0.is_negative;
    }
    proof {
        assert(q * x0.as_int() == if x0.is_negative {
            -(qx0 as int)
        } else {
            qx0 as int
        }) by (nonlinear_arith)
            requires
                qx0 == q * x0.value,
                x0.as_int() == if x0.is_negative {
                    -(x0.value as int)
                } else {
                    x0.value as int
                },
        ;
    }
    r
}

/// Calculates the inverse of `arg` modulo `M` with the extended Euclidean algorithm.
///
/// The number of iterations depends on the operand: this is not a constant-time
/// operation.
pub fn modular_inverse<T: PrimitiveUint, const M: u64>(arg: &T) -> (r: Option<T>)
    requires
        (M as nat) < T::limit(),
    ensures
        r is Some <==> is_invertible(arg.value() as int, M as int),
        r matches Some(x) ==> x.value() < M && (x.value() * arg.value()) % (M as nat) == 1,
        is_prime(M as int) && 0 < arg.value() < M ==> r is Some,
        arg.value() == 0 ==> r is None,
{
    let modulus = M;
    let ghost xa = arg.value() as int;
    let ghost m = M as int;
    if modulus <= 1 {
        proof {
            if is_invertible(xa, m) {
                let y = choose|y: int| 0 <= y < m && #[trigger] ((y * xa) % m) == 1;
                assert(m == 1);
                vstd::arithmetic::div_mod::lemma_fundamental_div_mod_converse(y * xa, 1, y * xa, 0);
            }
        }
        return None;
    }
    if arg.to_u64() == 0 {
        proof {
            if is_invertible(xa, m) {
                let y = choose|y: int| 0 <= y < m && #[trigger] ((y * xa) % m) == 1;
                assert(y * xa == 0) by (nonlinear_arith)
                    requires
                        xa == 0,
                ;
                vstd::arithmetic::div_mod::lemma_fundamental_div_mod_converse(0, m, 0, 0);
            }
        }
        return None;
    }
    let mut a = arg.to_u64();
    let mut b = modulus;
    // b = 1*b + 0*a
    let mut x0 = Signed { value: 0, is_negative: false };
    // a = 0*b + 1*a
    let mut x1 = Signed { value: 1, is_negative: false };
    let ghost mut k0: int = -xa * 0 - 1;
    let ghost mut k1: int = 0;
    proof {
        assert(x0.as_int() * xa - b == k0 * m) by (nonlinear_arith)
            requires
                x0.as_int() == 0,
                b == m,
                k0 == -1,
        ;
        assert(x1.as_int() * xa - a == k1 * m) by (nonlinear_arith)
            requires
                x1.as_int() == 1,
                a == xa,
                k1 == 0,
        ;
    }
    while a > 1
        invariant
            m == M,
            xa == arg.value(),
            m > 1,
            a >= 1,
            x1.as_int() * xa - a == k1 * m,
            x0.as_int() * xa - b == k0 * m,
            x0.value * a + x1.value * b <= m,
            x1.value <= m,
            divisors_kept(a as int, b as int, xa, m),
        decreases b,
    {
        if b == 0 {
            // The original `arg` and the modulus were not coprime: there is no answer.
            proof {
                assert(divides(a as int, a as int) && divides(a as int, 0)) by {
                    vstd::arithmetic::div_mod::lemma_mod_self_0(a as int);
                    vstd::arithmetic::div_mod::lemma_small_mod(0, a as nat);
                }
                assert(divides(a as int, xa) && divides(a as int, m));
                lemma_no_inverse(a as int, xa, m);
                if is_prime(m) && 0 < xa < m {
                    lemma_prime_no_common_divisor(a as int, xa, m);
                }
            }
            return None;
        }
        proof {
            lemma_divisors_step(a as int, b as int, xa, m);
        }
        // (b, a) := (a % b, b)
        let t = b;
        let q = a / b;
        let ghost (a_old, b_old) = (a as int, b as int);
        b = a % b;
        a = t;
        proof {
            vstd::arithmetic::div_mod::lemma_fundamental_div_mod(a_old, b_old);
            assert(q * b_old <= a_old) by (nonlinear_arith)
                requires
                    a_old == b_old * q + a_old % b_old,
                    a_old % b_old >= 0,
            ;
            assert(q * x0.value <= x0.value * a_old) by (nonlinear_arith)
                requires
                    q * b_old <= a_old,
                    b_old >= 1,
            ;
            assert(x1.value + q * x0.value <= m) by (nonlinear_arith)
                requires
                    q * b_old <= a_old,
                    b_old >= 1,
                    x0.value * a_old + x1.value * b_old <= m,
            ;
        }
        // (x0, x1) := (x1 - q * x0, x0)
        let temp_x0 = x0;
        x0 = next_cofactor(temp_x0, x1, q, Ghost(m));
        proof {
            let k0_new = k1 - q * k0;
            let s1 = x1.as_int();
            let s0 = temp_x0.as_int();
            assert(x0.as_int() * xa == s1 * xa - q * (s0 * xa)) by (nonlinear_arith)
                requires
                    x0.as_int() == s1 - q * s0,
            ;
            assert(q * (s0 * xa) == q * b_old + q * (k0 * m)) by (nonlinear_arith)
                requires
                    s0 * xa - b_old == k0 * m,
            ;
            assert(q * (k0 * m) == (q * k0) * m) by (nonlinear_arith);
            assert(k0_new * m == k1 * m - (q * k0) * m) by (nonlinear_arith)
                requires
                    k0_new == k1 - q * k0,
            ;
            assert(x0.as_int() * xa - b == k0_new * m);
            assert(x0.value * a + temp_x0.value * b <= m) by (nonlinear_arith)
                requires
                    x0.value <= x1.value + q * temp_x0.value,
                    a == b_old,
                    b == a_old - q * b_old,
                    temp_x0.value * a_old + x1.value * b_old <= m,
                    b >= 0,
                    b_old >= 0,
            ;
            assert(temp_x0.value <= m) by (nonlinear_arith)
                requires
                    temp_x0.value * a_old + x1.value * b_old <= m,
                    a_old >= 1,
                    x1.value * b_old >= 0,
            ;
            k1 = k0;
            k0 = k0_new;
        }
        x1 = temp_x0;
    }
    proof {
        assert(a == 1);
    }
    let result = if x1.is_negative {
        modulus - x1.value
    } else {
        x1.value
    };
    proof {
        // `x1` is neither `0` nor `±M`, since `x1·arg ≡ 1`.
        assert(x1.value != 0 && x1.value != m) by {
            if x1.value == 0 {
                assert(x1.as_int() * xa == 0) by (nonlinear_arith)
                    requires
                        x1.as_int() == 0,
                ;
                assert(false) by (nonlinear_arith)
                    requires
                        -1 == k1 * m,
                        m > 1,
                ;
            }
            if x1.value == m {
                assert(false) by (nonlinear_arith)
                    requires
                        x1.as_int() * xa - 1 == k1 * m,
                        x1.as_int() == m || x1.as_int() == -m,
                        m > 1,
                ;
            }
        }
        let c = if x1.is_negative {
            xa + k1
        } else {
            k1
        };
        assert(result * xa == c * m + 1) by (nonlinear_arith)
            requires
                x1.as_int() * xa - 1 == k1 * m,
                x1.is_negative ==> (result == m - x1.value && x1.as_int() == -x1.value && c == xa
                    + k1),
                !x1.is_negative ==> (result == x1.value && x1.as_int() == x1.value && c == k1),
        ;
        vstd::arithmetic::div_mod::lemma_fundamental_div_mod_converse(result * xa, m, c, 1);
        assert(((result as int) * xa) % m == 1);
    }
    T::from_u64(result)
}

} // verus!

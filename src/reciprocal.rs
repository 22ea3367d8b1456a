//! Division of a two-word integer by a fixed one-word divisor through a precomputed
//! reciprocal, after "Improved Division by Invariant Integers" by Niels Möller and
//! Torbjörn Granlund.
use vstd::arithmetic::power2::pow2;
use vstd::prelude::*;

verus! {

/// The base of a 64-bit word, `β`.
pub open spec fn word_base() -> int {
    0x1_0000_0000_0000_0000
}

/// The reciprocal of a normalized divisor `d` (top bit set): `⌊(β² − 1) / d⌋ − β`.
pub open spec fn reciprocal_of(d: int) -> int {
    (word_base() * word_base() - 1) / d - word_base()
}

proof fn lemma_join(hi: u64, lo: u64)
    by (bit_vector)
    ensures
        ((hi as u128) << 64u128) | (lo as u128) == (hi as u128) * 0x1_0000_0000_0000_0000u128 + (
        lo as u128),
{
}

proof fn lemma_split(x: u128)
    by (bit_vector)
    ensures
        ((x >> 64u128) as u64) as u128 * 0x1_0000_0000_0000_0000u128 + ((x as u64) as u128) == x,
{
}

/// Adds wide numbers given as `(most significant word, least significant word)` pairs,
/// returning the sum in the same form.
fn addhilo(x_hi: u64, x_lo: u64, y_hi: u64, y_lo: u64) -> (r: (u64, u64))
    requires
        x_hi * word_base() + x_lo + y_hi * word_base() + y_lo < word_base() * word_base(),
    ensures
        r.0 * word_base() + r.1 == x_hi * word_base() + x_lo + y_hi * word_base() + y_lo,
{
    proof {
        lemma_join(x_hi, x_lo);
        lemma_join(y_hi, y_lo);
    }
    let x = ((x_hi as u128) << 64u32) | (x_lo as u128);
    let y = ((y_hi as u128) << 64u32) | (y_lo as u128);
    let res = x + y;
    proof {
        lemma_split(res);
    }
    ((res >> 64u32) as u64, res as u64)
}

/// Multiplies `x` and `y`, returning the most and the least significant words
/// of the product as `(hi, lo)`.
fn mulhilo(x: u64, y: u64) -> (r: (u64, u64))
    ensures
        r.0 * word_base() + r.1 == x * y,
{
    assert((x as u128) * (y as u128) <= 0xffff_ffff_ffff_fffe_0000_0000_0000_0001) by (nonlinear_arith);
    let res = (x as u128) * (y as u128);
    proof {
        lemma_split(res);
    }
    ((res >> 64u32) as u64, res as u64)
}

proof fn lemma_set_bit(q: u32, i: u32)
    by (bit_vector)
    requires
        i < 31,
        q & (((1u32 << ((i + 1) as u32)) - 1) as u32) == 0,
    ensures
        q | (1u32 << i) == q + (1u32 << i),
        (q | (1u32 << i)) & (((1u32 << i) - 1) as u32) == 0,
        q & (((1u32 << i) - 1) as u32) == 0,
{
}

proof fn lemma_halve(x: u32, i: u32)
    by (bit_vector)
    requires
        1 <= i < 32,
        x * (1u32 << i) < 0x1_0000_0000,
    ensures
        (x * (1u32 << i)) as u32 >> 1 == x * (1u32 << ((i - 1) as u32)),
        (1u32 << i) == 2 * (1u32 << ((i - 1) as u32)),
{
}

proof fn lemma_shl_small(x: u32, k: u32, b: u32)
    by (bit_vector)
    requires
        1 <= b,
        k + b < 32,
        x < (1u32 << b),
    ensures
        x << k == x * (1u32 << k),
        x * (1u32 << ((k + 1) as u32)) < 0x1_0000_0000,
        (1u32 << ((k + b) as u32)) <= x * (1u32 << ((k + 1) as u32)) || x < (1u32 << ((b - 1) as u32)),
        0u32 & (((1u32 << ((k + 1) as u32)) - 1) as u32) == 0,
{
}

/// Calculates `dividend / divisor`, given upper bounds on the bit lengths of both.
fn short_div(dividend: u32, dividend_bits: u32, divisor: u32, divisor_bits: u32) -> (q: u32)
    requires
        1 <= divisor_bits <= dividend_bits < 32,
        dividend < (1u32 << dividend_bits),
        (1u32 << ((divisor_bits - 1) as u32)) <= divisor < (1u32 << divisor_bits),
    ensures
        q == dividend / divisor,
{
    let ghost n = dividend;
    let ghost m = divisor;
    let k = dividend_bits - divisor_bits;
    proof {
        lemma_shl_small(divisor, k, divisor_bits);
    }
    let mut dividend = dividend;
    let mut divisor = divisor << k;
    let mut quotient: u32 = 0;
    let mut i = k + 1;
    while i > 0
        invariant
            i <= k + 1 <= 31,
            k + divisor_bits < 32,
            m > 0,
            dividend + quotient * m == n,
            dividend < m * (1u32 << i),
            m * (1u32 << i) < 0x1_0000_0000,
            quotient & (((1u32 << i) - 1) as u32) == 0,
            i > 0 ==> divisor == m * (1u32 << ((i - 1) as u32)),
        decreases i,
    {
        proof {
            lemma_halve(m, i);
        }
        i -= 1;
        assert(m * (1u32 << ((i + 1) as u32)) == 2 * (m * (1u32 << i))) by (nonlinear_arith)
            requires
                (1u32 << ((i + 1) as u32)) == 2 * (1u32 << i),
        ;
        if dividend >= divisor {
            proof {
                lemma_set_bit(quotient, i);
                assert(quotient * m + (1u32 << i) * m == (quotient + (1u32 << i)) * m)
                    by (nonlinear_arith);
            }
            dividend = dividend.wrapping_sub(divisor);
            quotient |= 1 << i;
        } else {
            proof {
                lemma_set_bit(quotient, i);
            }
        }
        if i > 0 {
            proof {
                lemma_halve(m, i);
            }
        }
        divisor >>= 1;
    }
    proof {
        assert((1u32 << i) == 1) by (bit_vector)
            requires
                i == 0,
        ;
        assert(dividend < m);
        vstd::arithmetic::div_mod::lemma_fundamental_div_mod_converse(
            n as int,
            m as int,
            quotient as int,
            dividend as int,
        );
    }
    quotient
}

/// The facts that define `reciprocal_of(d)` for a normalized `d`.
proof fn lemma_reciprocal_facts(d: int, v: int)
    requires
        word_base() / 2 <= d < word_base(),
        v == reciprocal_of(d),
    ensures
        0 <= v < word_base(),
        (word_base() + v) * d <= word_base() * word_base() - 1 < (word_base() + v + 1) * d,
{
    let b = word_base();
    let big = b * b - 1;
    let n = big / d;
    vstd::arithmetic::div_mod::lemma_fundamental_div_mod(big, d);
    assert(big == d * n + big % d);
    assert(0 <= big % d < d) by {
        vstd::arithmetic::div_mod::lemma_mod_bound(big, d);
    }
    assert((b + v) * d == n * d) by {
        assert(b + v == n);
    }
    assert((b + v + 1) * d == n * d + d) by (nonlinear_arith)
        requires
            b + v == n,
    ;
    assert(n < 2 * b) by (nonlinear_arith)
        requires
            n * d <= big,
            big < b * b,
            b <= 2 * d,
            d > 0,
            b > 0,
    ;
    assert(n >= b) by (nonlinear_arith)
        requires
            n * d + d > big,
            big == b * b - 1,
            d < b,
            d > 0,
            b > 0,
    ;
}

/// The bit fields of a normalized divisor that the reciprocal computation reads.
proof fn lemma_divisor_bits(d: u64)
    by (bit_vector)
    requires
        d >= 0x8000_0000_0000_0000,
    ensures
        d == (d >> 55) * 0x80_0000_0000_0000 + (d & 0x7f_ffff_ffff_ffff),
        d == (d >> 24) * 0x100_0000 + (d & 0xff_ffff),
        d == (d >> 1) * 2 + (d & 1),
        (d & 0x7f_ffff_ffff_ffff) <= 0x7f_ffff_ffff_ffff,
        (d & 0xff_ffff) <= 0xff_ffff,
        (d & 1) <= 1,
        (d >> 24) < 0x100_0000_0000,
        (d >> 1) + (d & 1) <= 0x8000_0000_0000_0000,
        256 <= (d >> 55) < 512,
{
}

/// The first approximation `v0 = ⌊(2^19 − 3·2^8) / d9⌋` satisfies
/// `|2^50 − v0·d40| ≤ 1278·2^31`.
proof fn lemma_table(d: int, d9: int, d40: int, v0: int)
    requires
        0x8000_0000_0000_0000 <= d < 0x1_0000_0000_0000_0000,
        256 <= d9 < 512,
        d9 * 0x80_0000_0000_0000 <= d < (d9 + 1) * 0x80_0000_0000_0000,
        (d40 - 1) * 0x100_0000 <= d < d40 * 0x100_0000,
        v0 == 523520int / d9,
    ensures
        1024 <= v0 <= 2045,
        0x80_0000_0000 < d40 <= 0x100_0000_0000,
        d9 * 0x8000_0000 < d40 <= (d9 + 1) * 0x8000_0000,
        0x4_0000_0000_0000 - 1278 * 0x8000_0000 <= v0 * d40 <= 0x4_0000_0000_0000 + 1278
            * 0x8000_0000,
{
    vstd::arithmetic::div_mod::lemma_fundamental_div_mod(523520int, d9);
    vstd::arithmetic::div_mod::lemma_mod_bound(523520int, d9);
    let r = 523520int % d9;
    assert(1024 <= v0 <= 2045) by (nonlinear_arith)
        requires
            523520 == d9 * v0 + r,
            0 <= r < d9,
            256 <= d9 < 512,
    ;
    assert(d9 * 0x8000_0000 < d40 <= (d9 + 1) * 0x8000_0000) by (nonlinear_arith)
        requires
            d9 * 0x80_0000_0000_0000 <= d < (d9 + 1) * 0x80_0000_0000_0000,
            (d40 - 1) * 0x100_0000 <= d < d40 * 0x100_0000,
    ;
    assert(v0 * d40 <= v0 * ((d9 + 1) * 0x8000_0000)) by (nonlinear_arith)
        requires
            d40 <= (d9 + 1) * 0x8000_0000,
            v0 >= 0,
    ;
    assert(v0 * d40 >= v0 * (d9 * 0x8000_0000)) by (nonlinear_arith)
        requires
            d40 > d9 * 0x8000_0000,
            v0 >= 0,
    ;
    assert(v0 * ((d9 + 1) * 0x8000_0000) == (d9 * v0 + v0) * 0x8000_0000) by (nonlinear_arith);
    assert(v0 * (d9 * 0x8000_0000) == (d9 * v0) * 0x8000_0000) by (nonlinear_arith);
}

/// After the first Newton step, `e1 = 2^60 − v1·d40` lies in `(0, 2^43)`.
proof fn lemma_first_step(d40: int, v0: int, p: int, v1: int, e1: int)
    requires
        0x80_0000_0000 < d40 <= 0x100_0000_0000,
        1024 <= v0 <= 2045,
        0x4_0000_0000_0000 - 1278 * 0x8000_0000 <= v0 * d40 <= 0x4_0000_0000_0000 + 1278
            * 0x8000_0000,
        p == v0 * v0 * d40,
        v1 == 2048 * v0 - p / 0x100_0000_0000 - 1,
        e1 == 0x1000_0000_0000_0000 - v1 * d40,
    ensures
        0 < e1 < 0x800_0000_0000,
        0 < v1 < 0x20_0000,
{
    let b40 = 0x100_0000_0000int;
    let u = v0 * d40;
    let f = p % b40;
    let big_f = p / b40;
    vstd::arithmetic::div_mod::lemma_fundamental_div_mod(p, b40);
    vstd::arithmetic::div_mod::lemma_mod_bound(p, b40);
    assert(p == v0 * u) by (nonlinear_arith)
        requires
            p == v0 * v0 * d40,
            u == v0 * d40,
    ;
    assert(p * d40 == u * u) by (nonlinear_arith)
        requires
            p == v0 * u,
            u == v0 * d40,
    ;
    assert(b40 * e1 == (0x4_0000_0000_0000 - u) * (0x4_0000_0000_0000 - u) + d40 * (b40 - f))
        by (nonlinear_arith)
        requires
            e1 == 0x1000_0000_0000_0000 - v1 * d40,
            v1 == 2048 * v0 - big_f - 1,
            p == b40 * big_f + f,
            p * d40 == u * u,
            u == v0 * d40,
            b40 == 0x100_0000_0000,
    ;
    let s = 0x4_0000_0000_0000 - u;
    assert(s * s <= (1278 * 0x8000_0000) * (1278 * 0x8000_0000)) by (nonlinear_arith)
        requires
            -1278 * 0x8000_0000 <= s <= 1278 * 0x8000_0000,
    ;
    assert(d40 * (b40 - f) <= b40 * b40 && d40 * (b40 - f) > 0) by (nonlinear_arith)
        requires
            0 < d40 <= b40,
            0 <= f < b40,
    ;
    assert(s * s >= 0) by (nonlinear_arith);
    assert(0 < e1 < 0x800_0000_0000) by (nonlinear_arith)
        requires
            b40 * e1 == s * s + d40 * (b40 - f),
            s * s <= (1278 * 0x8000_0000) * (1278 * 0x8000_0000),
            0 < d40 * (b40 - f) <= b40 * b40,
            b40 == 0x100_0000_0000,
    ;
    assert(0 < v1 < 0x20_0000) by (nonlinear_arith)
        requires
            v1 * d40 == 0x1000_0000_0000_0000 - e1,
            0 < e1 < 0x800_0000_0000,
            0x80_0000_0000 < d40,
    ;
}

/// After the second Newton step, `2^73 − v2·d40` is `(e1² + g·d40) / 2^47`.
proof fn lemma_second_step(d40: int, v1: int, e1: int, q: int, g: int, v2: int)
    requires
        0x80_0000_0000 < d40 <= 0x100_0000_0000,
        0 < v1 < 0x20_0000,
        0 < e1 < 0x800_0000_0000,
        e1 == 0x1000_0000_0000_0000 - v1 * d40,
        v1 * e1 == q * 0x8000_0000_0000 + g,
        0 <= g < 0x8000_0000_0000,
        v2 == 0x2000 * v1 + q,
    ensures
        0x8000_0000_0000 * (0x200_0000_0000_0000_0000 - v2 * d40) == e1 * e1 + g * d40,
        0 < v2 < 0x4_0000_0000,
{
    assert(0x8000_0000_0000 * (0x200_0000_0000_0000_0000 - v2 * d40) == e1 * e1 + g * d40)
        by (nonlinear_arith)
        requires
            e1 == 0x1000_0000_0000_0000 - v1 * d40,
            v1 * e1 == q * 0x8000_0000_0000 + g,
            v2 == 0x2000 * v1 + q,
    ;
    assert(e1 * e1 + g * d40 > 0) by (nonlinear_arith)
        requires
            e1 > 0,
            g >= 0,
            d40 > 0,
    ;
    assert(q >= 0) by (nonlinear_arith)
        requires
            v1 * e1 == q * 0x8000_0000_0000 + g,
            g < 0x8000_0000_0000,
            v1 > 0,
            e1 > 0,
    ;
    assert(v2 < 0x4_0000_0000) by (nonlinear_arith)
        requires
            v2 * d40 < 0x200_0000_0000_0000_0000,
            d40 > 0x80_0000_0000,
    ;
}

/// The third step's error term `e = 2^96 − v2·d63 + ⌊v2 / 2⌋·d0` is positive, below
/// `(d + 2^63 + 2^60) / 2`, and `2e = 2^97 − v2·d − ε` with `ε = d0·(v2 mod 2)`.
proof fn lemma_third_step(
    d: int,
    d0: int,
    d40: int,
    d63: int,
    e1: int,
    g: int,
    v2: int,
    w: int,
    e: int,
)
    requires
        0x8000_0000_0000_0000 <= d < 0x1_0000_0000_0000_0000,
        0 <= d0 <= 1,
        2 * d63 == d + d0,
        (d40 - 1) * 0x100_0000 <= d < d40 * 0x100_0000,
        0 < e1 < 0x800_0000_0000,
        0 <= g < 0x8000_0000_0000,
        0 < v2 < 0x4_0000_0000,
        0x8000_0000_0000 * (0x200_0000_0000_0000_0000 - v2 * d40) == e1 * e1 + g * d40,
        w == 0x1_0000_0000_0000_0000_0000_0000 - v2 * d63,
        e == w + (v2 / 2) * d0,
    ensures
        0 < w < 0x1_0000_0000_0000_0000,
        0 < e < 0x1_0000_0000_0000_0000,
        2 * e < d + 0x8000_0000_0000_0000 + 0x1000_0000_0000_0000,
        2 * e == 0x2_0000_0000_0000_0000_0000_0000 - v2 * d - d0 * (v2 % 2),
{
    let t = 0x80_0000 * d40 - d63;
    assert(0 <= t <= 0x80_0000);
    assert(w == 0x80_0000 * (0x200_0000_0000_0000_0000 - v2 * d40) + v2 * t) by (nonlinear_arith)
        requires
            w == 0x1_0000_0000_0000_0000_0000_0000 - v2 * d63,
            t == 0x80_0000 * d40 - d63,
    ;
    assert(0x100_0000 * w == e1 * e1 + g * d40 + 0x100_0000 * (v2 * t)) by (nonlinear_arith)
        requires
            w == 0x80_0000 * (0x200_0000_0000_0000_0000 - v2 * d40) + v2 * t,
            0x8000_0000_0000 * (0x200_0000_0000_0000_0000 - v2 * d40) == e1 * e1 + g * d40,
    ;
    assert(e1 * e1 < 0x40_0000_0000_0000_0000_0000 && e1 * e1 > 0) by (nonlinear_arith)
        requires
            0 < e1 < 0x800_0000_0000,
    ;
    assert(g * d40 <= 0x8000_0000_0000 * d40 && g * d40 >= 0) by (nonlinear_arith)
        requires
            0 <= g < 0x8000_0000_0000,
            d40 > 0,
    ;
    assert(0 <= v2 * t <= v2 * 0x80_0000 && v2 * 0x80_0000 < 0x200_0000_0000_0000)
        by (nonlinear_arith)
        requires
            0 <= t <= 0x80_0000,
            0 < v2 < 0x4_0000_0000,
    ;
    assert(0 < w);
    assert(2 * w < d + 0x8000_0000_0000_0000 + 0x800_0000_0000_0000);
    vstd::arithmetic::div_mod::lemma_fundamental_div_mod(v2, 2);
    vstd::arithmetic::div_mod::lemma_mod_bound(v2, 2);
    assert(0 <= (v2 / 2) * d0 <= v2) by (nonlinear_arith)
        requires
            0 <= d0 <= 1,
            v2 == 2 * (v2 / 2) + v2 % 2,
            0 <= v2 % 2,
            v2 > 0,
    ;
    assert(2 * e == 0x2_0000_0000_0000_0000_0000_0000 - v2 * d - d0 * (v2 % 2)) by (nonlinear_arith)
        requires
            e == w + (v2 / 2) * d0,
            w == 0x1_0000_0000_0000_0000_0000_0000 - v2 * d63,
            2 * d63 == d + d0,
            v2 == 2 * (v2 / 2) + v2 % 2,
    ;
}

/// After the third Newton step, `V = 2^31·v2 + ⌊v2·e / 2^65⌋` satisfies
/// `0 < 2^128 − V·d < 2d`.
proof fn lemma_fourth_step(d: int, v2: int, e: int, eps: int, big_h: int, h: int, big_v: int)
    requires
        0x8000_0000_0000_0000 <= d < 0x1_0000_0000_0000_0000,
        0 <= eps <= 1,
        0 < e,
        2 * e < d + 0x8000_0000_0000_0000 + 0x1000_0000_0000_0000,
        2 * e == 0x2_0000_0000_0000_0000_0000_0000 - v2 * d - eps,
        v2 * e == big_h * 0x2_0000_0000_0000_0000 + h,
        0 <= h < 0x2_0000_0000_0000_0000,
        big_v == 0x8000_0000 * v2 + big_h,
    ensures
        0 < word_base() * word_base() - big_v * d < 2 * d,
{
    let big_e = word_base() * word_base() - big_v * d;
    assert(0x2_0000_0000_0000_0000 * big_e == 0x1_0000_0000_0000_0000_0000_0000 * eps + 2 * (e
        * e) + e * eps + h * d) by (nonlinear_arith)
        requires
            big_e == 0x1_0000_0000_0000_0000 * 0x1_0000_0000_0000_0000 - big_v * d,
            2 * e == 0x2_0000_0000_0000_0000_0000_0000 - v2 * d - eps,
            v2 * e == big_h * 0x2_0000_0000_0000_0000 + h,
            big_v == 0x8000_0000 * v2 + big_h,
    ;
    assert(e * e > 0 && e * eps >= 0 && h * d >= 0) by (nonlinear_arith)
        requires
            e > 0,
            eps >= 0,
            h >= 0,
            d > 0,
    ;
    assert(h * d < 0x2_0000_0000_0000_0000 * d) by (nonlinear_arith)
        requires
            h < 0x2_0000_0000_0000_0000,
            d > 0,
    ;
    assert(e * eps <= e) by (nonlinear_arith)
        requires
            0 <= eps <= 1,
            e > 0,
    ;
    let k = d + 0x8000_0000_0000_0000 + 0x1000_0000_0000_0000;
    assert(4 * (e * e) < k * k) by (nonlinear_arith)
        requires
            0 < 2 * e < k,
    ;
    assert(k * k + 0x2_0000_0000_0000_0000_0000_0000 + 2 * e < 0x4_0000_0000_0000_0000 * d)
        by (nonlinear_arith)
        requires
            k == d + 0x8000_0000_0000_0000 + 0x1000_0000_0000_0000,
            0x8000_0000_0000_0000 <= d < 0x1_0000_0000_0000_0000,
            2 * e < k,
    ;
    assert(0x4_0000_0000_0000_0000 * big_e < 0x8_0000_0000_0000_0000 * d);
    assert(big_e > 0);
}

/// A left shift by 31 of a value below `2^34` keeps its low 33 bits.
proof fn lemma_shift_31(v2: u64)
    by (bit_vector)
    requires
        v2 < 0x4_0000_0000,
    ensures
        v2 << 31 == (v2 & 0x1_ffff_ffff) * 0x8000_0000,
        v2 == (v2 >> 33) * 0x2_0000_0000 + (v2 & 0x1_ffff_ffff),
        (v2 & 0x1_ffff_ffff) <= 0x1_ffff_ffff,
        (v2 >> 33) <= 1,
{
}

/// The last adjustment: with `0 < β² − V·d < 2d`, `⌊(V + 1)·d / β⌋` tells whether the
/// reciprocal is `V` or `V + 1`.
proof fn lemma_last_step(d: int, big_v: int, hi0: int, lo: int, x: int, hi: int)
    requires
        word_base() / 2 <= d < word_base(),
        word_base() <= big_v < 2 * word_base(),
        0 < word_base() * word_base() - big_v * d < 2 * d,
        x == if big_v + 1 - word_base() < word_base() {
            big_v + 1 - word_base()
        } else {
            0
        },
        hi0 * word_base() + lo == x * d,
        0 <= lo < word_base(),
        hi == if x > 0 {
            hi0
        } else {
            d
        },
        0 <= reciprocal_of(d) < word_base(),
    ensures
        word_base() * word_base() - big_v * d <= d ==> hi + d == word_base() && reciprocal_of(d)
            == big_v - word_base(),
        word_base() * word_base() - big_v * d > d ==> hi + d == word_base() - 1
            && reciprocal_of(d) == big_v + 1 - word_base(),
{
    let b = word_base();
    let big_e = b * b - big_v * d;
    let low = if x > 0 {
        lo
    } else {
        0
    };
    assert((big_v + 1) * d == (hi + d) * b + low) by (nonlinear_arith)
        requires
            x > 0 ==> x == big_v + 1 - b,
            x <= 0 ==> big_v + 1 == 2 * b,
            hi0 * b + lo == x * d,
            x > 0 ==> (hi == hi0 && low == lo),
            x <= 0 ==> (hi == d && low == 0),
    ;
    assert((big_v + 1) * d == b * b + d - big_e) by (nonlinear_arith)
        requires
            big_e == b * b - big_v * d,
    ;
    vstd::arithmetic::div_mod::lemma_fundamental_div_mod_converse(
        (big_v + 1) * d,
        b,
        hi + d,
        low,
    );
    if big_e <= d {
        vstd::arithmetic::div_mod::lemma_fundamental_div_mod_converse(
            (big_v + 1) * d,
            b,
            b,
            d - big_e,
        );
        vstd::arithmetic::div_mod::lemma_fundamental_div_mod_converse(
            b * b - 1,
            d,
            big_v,
            big_e - 1,
        );
    } else {
        vstd::arithmetic::div_mod::lemma_fundamental_div_mod_converse(
            (big_v + 1) * d,
            b,
            b - 1,
            b - (big_e - d),
        );
        vstd::arithmetic::div_mod::lemma_fundamental_div_mod_converse(
            b * b - 1,
            d,
            big_v + 1,
            big_e - d - 1,
        );
    }
}

/// Calculates the reciprocal of the given 64-bit divisor with the highmost bit set: a
/// short division gives 11 bits, three Newton steps refine them, and a last adjustment
/// makes the result exact.
#[verifier::rlimit(60)]
fn reciprocal(d: u64) -> (v: u64)
    requires
        d >= 0x8000_0000_0000_0000,
    ensures
        v == reciprocal_of(d as int),
{
    let ghost b = word_base();
    proof {
        lemma_divisor_bits(d);
    }
    let d0 = d & 1;
    let d9 = d >> 55;
    let d40 = (d >> 24) + 1;
    let d63 = (d >> 1) + d0;
    proof {
        assert((d9 as u32) == d9);
        assert((1u32 << 8u32) == 256 && (1u32 << 9u32) == 512 && (1u32 << 19u32) == 0x80000)
            by (bit_vector);
    }
    // A first approximation of `2^74 / d` with 11 bits, from the top 9 bits of `d`.
    let v0 = short_div((1 << 19) - 3 * (1 << 8), 19, d9 as u32, 9) as u64;
    proof {
        lemma_table(d as int, d9 as int, d40 as int, v0 as int);
        assert(v0 * v0 <= 2045 * 2045) by (nonlinear_arith)
            requires
                v0 <= 2045,
        ;
        assert(v0 * v0 * d40 < 0x4000_0000_0000_0000) by (nonlinear_arith)
            requires
                v0 * v0 <= 2045 * 2045,
                d40 <= 0x100_0000_0000,
        ;
    }
    // Newton steps, each roughly doubling the number of correct bits.
    let p = v0 * v0 * d40;
    let ghost v1_exact = 2048 * v0 - p / 0x100_0000_0000 - 1;
    proof {
        lemma_first_step(
            d40 as int,
            v0 as int,
            p as int,
            v1_exact,
            0x1000_0000_0000_0000 - v1_exact * d40,
        );
        assert(v0 << 11 == v0 * 2048 && p >> 40 == p / 0x100_0000_0000) by (bit_vector)
            requires
                v0 <= 2045,
        ;
    }
    let v1 = (v0 << 11).wrapping_sub(p >> 40).wrapping_sub(1);
    proof {
        assert(v1 == v1_exact);
        assert(v1 * d40 < 0x1000_0000_0000_0000);
        assert((1u64 << 60u64) == 0x1000_0000_0000_0000) by (bit_vector);
        vstd::arithmetic::div_mod::lemma_small_mod((v1 * d40) as nat, b as nat);
    }
    let e1 = (1u64 << 60).wrapping_sub(v1.wrapping_mul(d40));
    proof {
        assert(e1 == 0x1000_0000_0000_0000 - v1 * d40);
        assert(v1 * e1 < 0x1_0000_0000_0000_0000) by (nonlinear_arith)
            requires
                0 < v1 < 0x20_0000,
                0 < e1 < 0x800_0000_0000,
        ;
        vstd::arithmetic::div_mod::lemma_small_mod((v1 * e1) as nat, b as nat);
        vstd::arithmetic::div_mod::lemma_fundamental_div_mod(v1 * e1, 0x8000_0000_0000);
        vstd::arithmetic::div_mod::lemma_mod_bound(v1 * e1, 0x8000_0000_0000);
        let q = (v1 * e1) / 0x8000_0000_0000;
        let g = (v1 * e1) % 0x8000_0000_0000;
        assert(v1 << 13 == v1 * 0x2000) by (bit_vector)
            requires
                v1 < 0x20_0000,
        ;
        let m1 = (v1 * e1) as u64;
        assert(m1 >> 47 == m1 / 0x8000_0000_0000) by (bit_vector);
        assert(q < 0x2_0000) by (nonlinear_arith)
            requires
                v1 * e1 == 0x8000_0000_0000 * q + g,
                v1 * e1 < 0x1_0000_0000_0000_0000,
                g >= 0,
        ;
        lemma_second_step(d40 as int, v1 as int, e1 as int, q, g, 0x2000 * v1 + q);
    }
    let v2 = (v1 << 13).wrapping_add((v1.wrapping_mul(e1)) >> 47);
    let ghost w = 0x1_0000_0000_0000_0000_0000_0000 - v2 * d63;
    let ghost e_exact = w + (v2 / 2) * d0;
    proof {
        let g = (v1 * e1) % 0x8000_0000_0000;
        assert(v2 == 0x2000 * v1 + (v1 * e1) / 0x8000_0000_0000);
        lemma_third_step(
            d as int,
            d0 as int,
            d40 as int,
            d63 as int,
            e1 as int,
            g,
            v2 as int,
            w,
            e_exact,
        );
        // `v2·d63 = (2^32 − 1)·β + (β − w)`.
        vstd::arithmetic::div_mod::lemma_fundamental_div_mod_converse(
            v2 * d63,
            b,
            0xffff_ffff,
            b - w,
        );
        assert(v2 >> 1 == v2 / 2) by (bit_vector);
        vstd::arithmetic::div_mod::lemma_fundamental_div_mod(v2 as int, 2);
        assert((v2 / 2) * d0 <= v2) by (nonlinear_arith)
            requires
                d0 <= 1,
                v2 == 2 * (v2 / 2) + v2 % 2,
                v2 % 2 >= 0,
        ;
        vstd::arithmetic::div_mod::lemma_small_mod(((v2 / 2) * d0) as nat, b as nat);
    }
    let e = u64::MAX.wrapping_sub(v2.wrapping_mul(d63)).wrapping_add(1).wrapping_add(
        (v2 >> 1).wrapping_mul(d0),
    );
    proof {
        assert(e == e_exact);
    }
    let (hi, _lo) = mulhilo(v2, e);
    let ghost big_v = 0x8000_0000 * v2 + hi / 2;
    proof {
        vstd::arithmetic::div_mod::lemma_fundamental_div_mod(hi as int, 2);
        vstd::arithmetic::div_mod::lemma_mod_bound(hi as int, 2);
        let h = (hi % 2) * b + _lo;
        assert(v2 * e == (hi / 2) * 0x2_0000_0000_0000_0000 + h);
        lemma_fourth_step(
            d as int,
            v2 as int,
            e as int,
            d0 * (v2 % 2),
            (hi / 2) as int,
            h,
            big_v,
        );
        assert(hi >> 1 == hi / 2) by (bit_vector);
        lemma_shift_31(v2);
        // `V` lies in `[β, 2β)`.
        let big_e = b * b - big_v * d;
        assert(b <= big_v < 2 * b) by (nonlinear_arith)
            requires
                0 < big_e < 2 * d,
                big_e == b * b - big_v * d,
                b <= 2 * d,
                d < b,
        ;
    }
    let v3 = (v2 << 31).wrapping_add(hi >> 1);
    proof {
        assert(v3 == big_v - b);
    }
    // The last adjustment subtracts `⌊(v3 + 1)·d / β⌋`; for `v3 = β − 1` that is `d`, which
    // the wrapped product cannot show.
    let x = v3.wrapping_add(1);
    let (hi0, _lo) = mulhilo(x, d);
    let hi = if x > 0 {
        hi0
    } else {
        d
    };
    proof {
        lemma_reciprocal_facts(d as int, reciprocal_of(d as int));
        lemma_last_step(d as int, big_v, hi0 as int, _lo as int, x as int, hi as int);
    }
    let t = v3.wrapping_sub(hi);
    let v = t.wrapping_sub(d);
    proof {
        assert(v == reciprocal_of(d as int));
    }
    v
}

/// A pre-calculated reciprocal for division by a single limb.
#[derive(Copy, Clone, Debug)]
pub struct Reciprocal {
    divisor_normalized: u64,
    shift: u32,
    reciprocal: u64,
}

impl Reciprocal {
    /// The divisor shifted left until its top bit is set, the shift, and its reciprocal
    /// are consistent with each other.
    pub closed spec fn wf(self) -> bool {
        &&& self.shift < 64
        &&& self.divisor_normalized >= 0x8000_0000_0000_0000
        &&& self.divisor_normalized as int == self.divisor() * pow2(self.shift as nat)
        &&& self.reciprocal == reciprocal_of(self.divisor_normalized as int)
    }

    /// The divisor this reciprocal was made for.
    pub closed spec fn divisor(self) -> int {
        self.divisor_normalized as int / pow2(self.shift as nat) as int
    }

    /// Pre-calculates a reciprocal for a known divisor.
    pub fn new(divisor: u64) -> (r: Self)
        requires
            divisor > 0,
        ensures
            r.wf(),
            r.divisor() == divisor,
    {
        let shift = divisor.leading_zeros();
        proof {
            lemma_normalize(divisor, shift);
        }
        let divisor_normalized = divisor << shift;
        Self { divisor_normalized, shift, reciprocal: reciprocal(divisor_normalized) }
    }
}

proof fn lemma_normalize_bits(i: u64, lz: u64)
    by (bit_vector)
    requires
        i > 0,
        lz < 64,
        (i >> ((63 - lz) as u64)) & 1u64 != 0u64,
        i >> ((64 - lz) as u64) == 0,
    ensures
        (i << lz) >= 0x8000_0000_0000_0000,
{
}

proof fn lemma_normalize(i: u64, shift: u32)
    requires
        i > 0,
        shift as int == vstd::std_specs::bits::u64_leading_zeros(i),
    ensures
        shift < 64,
        (i << shift) >= 0x8000_0000_0000_0000,
        (i << shift) as int == i * pow2(shift as nat),
        (i << shift) as int / pow2(shift as nat) as int == i,
{
    vstd::std_specs::bits::axiom_u64_leading_zeros(i);
    let lz = shift as u64;
    lemma_normalize_bits(i, lz);
    assert(i << shift == i << lz) by (bit_vector)
        requires
            lz == shift,
    ;
    vstd::arithmetic::power2::lemma_pow2_pos(shift as nat);
    if lz == 0 {
        assert(i << lz == i) by (bit_vector)
            requires
                lz == 0,
        ;
        vstd::arithmetic::power2::lemma2_to64();
    } else {
        let hi_shift = (64 - lz) as u64;
        vstd::bits::lemma_u64_shr_is_div(i, hi_shift);
        vstd::arithmetic::power2::lemma_pow2_pos(hi_shift as nat);
        vstd::arithmetic::div_mod::lemma_fundamental_div_mod(i as int, pow2(hi_shift as nat) as int);
        vstd::arithmetic::power2::lemma_pow2_adds(hi_shift as nat, lz as nat);
        vstd::arithmetic::power2::lemma2_to64_rest();
        assert(i * pow2(lz as nat) < pow2(hi_shift as nat) * pow2(lz as nat)) by (nonlinear_arith)
            requires
                i < pow2(hi_shift as nat),
                pow2(lz as nat) > 0,
        ;
        vstd::bits::lemma_u64_shl_is_mul(i, lz);
    }
    vstd::arithmetic::div_mod::lemma_div_multiples_vanish(i as int, pow2(shift as nat) as int);
    assert(pow2(shift as nat) * i == i * pow2(shift as nat)) by (nonlinear_arith);
}

/// Where the candidate remainder `u1·β + u0 − (q1 + 1)·d` of a two-by-one division lies,
/// `q1·β + q0` being `(β + v)·u1 + u0`.
proof fn lemma_candidate_bounds(d: int, v: int, u1: int, u0: int, q1: int, q0: int)
    requires
        word_base() / 2 <= d < word_base(),
        0 <= v < word_base(),
        (word_base() + v) * d <= word_base() * word_base() - 1,
        word_base() * word_base() - 1 < (word_base() + v + 1) * d,
        0 <= u1 < d,
        0 <= u0 < word_base(),
        0 <= q0 < word_base(),
        q1 * word_base() + q0 == (word_base() + v) * u1 + u0,
    ensures
        q0 - word_base() < u1 * word_base() + u0 - (q1 + 1) * d,
        -d <= u1 * word_base() + u0 - (q1 + 1) * d,
        u1 * word_base() + u0 - (q1 + 1) * d < q0 || u1 * word_base() + u0 - (q1 + 1) * d
            < word_base() - d,
{
    let b = word_base();
    let k = b * b - 1 - (b + v) * d;
    let rt = u1 * b + u0 - (q1 + 1) * d;
    assert(0 <= k < d) by (nonlinear_arith)
        requires
            k == b * b - 1 - (b + v) * d,
            (b + v) * d <= b * b - 1,
            b * b - 1 < (b + v + 1) * d,
    ;
    assert((q1 * b + q0) * d == ((b + v) * u1 + u0) * d);
    assert(b * rt == b * b * u1 + b * u0 - b * q1 * d - b * d) by (nonlinear_arith)
        requires
            rt == u1 * b + u0 - (q1 + 1) * d,
    ;
    assert(b * q1 * d == (b + v) * d * u1 + u0 * d - q0 * d) by (nonlinear_arith)
        requires
            (q1 * b + q0) * d == ((b + v) * u1 + u0) * d,
    ;
    assert((b + v) * d * u1 == (b * b - 1 - k) * u1) by (nonlinear_arith)
        requires
            k == b * b - 1 - (b + v) * d,
    ;
    assert(b * rt == (1 + k) * u1 + u0 * (b - d) + q0 * d - b * d) by (nonlinear_arith)
        requires
            b * rt == b * b * u1 + b * u0 - b * q1 * d - b * d,
            b * q1 * d == (b + v) * d * u1 + u0 * d - q0 * d,
            (b + v) * d * u1 == (b * b - 1 - k) * u1,
    ;
    assert(q0 * d - b * d == (q0 - b) * d && b * (q0 - b) == (q0 - b) * b && -b * d == -(b * d))
        by (nonlinear_arith);
    assert((1 + k) * u1 >= 0 && u0 * (b - d) >= 0) by (nonlinear_arith)
        requires
            k >= 0,
            u1 >= 0,
            u0 >= 0,
            b > d,
    ;
    assert((1 + k) * u1 <= d * (d - 1)) by (nonlinear_arith)
        requires
            0 <= k < d,
            0 <= u1 < d,
    ;
    assert(u0 * (b - d) <= (b - 1) * (b - d)) by (nonlinear_arith)
        requires
            0 <= u0 < b,
            d < b,
    ;
    assert((q0 - b) * d > (q0 - b) * b) by (nonlinear_arith)
        requires
            q0 < b,
            d < b,
    ;
    assert((q0 - b) * d >= -b * d) by (nonlinear_arith)
        requires
            q0 >= 0,
            d > 0,
    ;
    assert(b * rt > b * (q0 - b)) by (nonlinear_arith)
        requires
            b * rt == (1 + k) * u1 + u0 * (b - d) + q0 * d - b * d,
            (1 + k) * u1 >= 0,
            u0 * (b - d) >= 0,
            q0 * d - b * d == (q0 - b) * d,
            b * (q0 - b) == (q0 - b) * b,
            (q0 - b) * d > (q0 - b) * b,
    ;
    assert(rt > q0 - b) by (nonlinear_arith)
        requires
            b * rt > b * (q0 - b),
            b > 0,
    ;
    assert(rt >= -d) by (nonlinear_arith)
        requires
            b * rt >= -b * d,
            b > 0,
    ;
    assert(b * rt <= d * (d - 1) + (b - 1) * (b - d) + q0 * d - b * d);
    if q0 >= b - d {
        assert(b * q0 - (d * (d - 1) + (b - 1) * (b - d) + q0 * d - b * d) == (b - d) * (q0 - (b
            - d)) + b) by (nonlinear_arith);
        assert((b - d) * (q0 - (b - d)) >= 0) by (nonlinear_arith)
            requires
                q0 >= b - d,
                b > d,
        ;
        assert(b * q0 - b * rt > 0);
        assert(rt < q0) by (nonlinear_arith)
            requires
                b * q0 - b * rt > 0,
                b > 0,
        ;
    } else {
        assert(b * (b - d) - b * rt > 0) by (nonlinear_arith)
            requires
                b * rt <= d * (d - 1) + (b - 1) * (b - d) + q0 * d - b * d,
                q0 < b - d,
                d > 0,
                b > d,
        ;
        assert(rt < b - d) by (nonlinear_arith)
            requires
                b * (b - d) - b * rt > 0,
                b > 0,
        ;
    }
}

/// Calculates the quotient and the remainder of the division of a wide word
/// (supplied as high and low words) by the normalized divisor of `reciprocal`.
fn div2by1(u1: u64, u0: u64, reciprocal: &Reciprocal) -> (r: (u64, u64))
    requires
        reciprocal.wf(),
        u1 < reciprocal.divisor_normalized,
    ensures
        u1 * word_base() + u0 == r.0 * reciprocal.divisor_normalized + r.1,
        r.1 < reciprocal.divisor_normalized,
{
    let d = reciprocal.divisor_normalized;
    let rec = reciprocal.reciprocal;
    let ghost b = word_base();
    proof {
        lemma_reciprocal_facts(d as int, rec as int);
        assert((b + rec) * u1 + u0 < b * b) by (nonlinear_arith)
            requires
                (b + rec) * d <= b * b - 1,
                u1 + 1 <= d,
                u0 < b,
                b + rec > 0,
        ;
    }
    let (q1, q0) = mulhilo(rec, u1);
    let ghost mq1 = q1 as int;
    let ghost mq0 = q0 as int;
    assert(q1 * b + q0 + u1 * b + u0 < b * b) by (nonlinear_arith)
        requires
            q1 * b + q0 == rec * u1,
            (b + rec) * u1 + u0 < b * b,
    ;
    let (q1, q0) = addhilo(q1, q0, u1, u0);
    let ghost qh = q1 as int;
    let ghost u = u1 * b + u0;
    let ghost rt = u - (qh + 1) * d;
    proof {
        assert(qh * b + q0 == (b + rec) * u1 + u0) by (nonlinear_arith)
            requires
                qh * b + q0 == mq1 * b + mq0 + u1 * b + u0,
                mq1 * b + mq0 == rec * u1,
        ;
        lemma_candidate_bounds(d as int, rec as int, u1 as int, u0 as int, qh, q0 as int);
        assert(u < d * b) by (nonlinear_arith)
            requires
                u == u1 * b + u0,
                u1 + 1 <= d,
                u0 < b,
        ;
    }
    let mut q1 = q1.wrapping_add(1);
    let ghost q1w = q1 as int;
    let prod = q1.wrapping_mul(d);
    let mut r = u0.wrapping_sub(prod);
    proof {
        let p = q1w * d;
        vstd::arithmetic::div_mod::lemma_fundamental_div_mod(p, b);
        assert(prod == p % b);
        let c0: int = if u0 >= prod {
            0
        } else {
            1
        };
        assert(r == u0 - prod + c0 * b);
        assert(q1w == qh + 1 || (q1w == 0 && qh + 1 == b));
        assert(q1w * d == (qh + 1) * d || q1w * d == (qh + 1) * d - b * d) by (nonlinear_arith)
            requires
                q1w == qh + 1 || (q1w == 0 && qh + 1 == b),
        ;
        // `r` differs from the candidate remainder by a multiple of `β`.
        let c = if q1w * d == (qh + 1) * d {
            p / b + c0 - u1
        } else {
            p / b + c0 - u1 + d
        };
        if q1w * d == (qh + 1) * d {
            assert(r == rt + c * b);
        } else {
            assert(q1w * d == (qh + 1) * d - b * d);
            assert(r == rt + c * b);
        }
        assert(rt >= 0 ==> r == rt);
        assert(rt < 0 ==> r == rt + b);
        // When the candidate quotient is not too large it did not wrap.
        assert(rt >= 0 ==> qh + 2 <= b) by (nonlinear_arith)
            requires
                rt == u - (qh + 1) * d,
                u < d * b,
                d > 0,
        ;
    }
    if r > q0 {
        q1 = q1.wrapping_sub(1);
        r = r.wrapping_add(d);
    }
    proof {
        if rt >= 0 && rt >= d {
            assert(qh + 3 <= b) by (nonlinear_arith)
                requires
                    rt == u - (qh + 1) * d,
                    rt >= d,
                    u < d * b,
                    d > 0,
            ;
        }
    }
    if r >= d {
        q1 += 1;
        r -= d;
    }
    proof {
        assert(u == (qh + 1) * d + rt);
        assert((qh + 2) * d == (qh + 1) * d + d) by (nonlinear_arith);
        assert(qh * d == (qh + 1) * d - d) by (nonlinear_arith);
    }
    (q1, r)
}

proof fn lemma_shift_pair_bits(hi: u64, lo: u64, s: u32)
    by (bit_vector)
    requires
        0 < s < 64,
        hi <= (0xffff_ffff_ffff_ffffu64 >> s),
    ensures
        (hi << s) | (lo >> ((64 - s) as u32)) == (hi << s) + (lo >> ((64 - s) as u32)),
        lo << s == ((lo - ((lo >> ((64 - s) as u32)) << ((64 - s) as u32))) as u64) << s,
        (lo >> ((64 - s) as u32)) << ((64 - s) as u32) <= lo,
{
}

proof fn lemma_shl_is_mul(x: u64, s: u32)
    requires
        s < 64,
        x * pow2(s as nat) <= u64::MAX,
    ensures
        x << s == x * pow2(s as nat),
{
    vstd::bits::lemma_u64_shl_is_mul(x, s as u64);
    assert(x << s == x << (s as u64)) by (bit_vector);
}

/// Shifting the pair `(hi, lo)` left by `s` bits multiplies `hi·β + lo` by `2^s`.
proof fn lemma_shift_pair(hi: u64, lo: u64, s: u32)
    requires
        0 < s < 64,
        hi * pow2(s as nat) < word_base(),
    ensures
        hi << s == hi * pow2(s as nat),
        ((hi << s) | (lo >> ((64 - s) as u32))) * word_base() + (lo << s) == (hi * word_base()
            + lo) * pow2(s as nat),
        (hi << s) | (lo >> ((64 - s) as u32)) == (hi << s) + (lo >> ((64 - s) as u32)),
{
    let p = pow2(s as nat) as int;
    let t = (64 - s) as u32;
    let pt = pow2(t as nat) as int;
    let b = word_base();
    vstd::arithmetic::power2::lemma_pow2_pos(s as nat);
    vstd::arithmetic::power2::lemma_pow2_pos(t as nat);
    vstd::arithmetic::power2::lemma_pow2_adds(t as nat, s as nat);
    vstd::arithmetic::power2::lemma2_to64_rest();
    assert(pt * p == b);
    vstd::bits::lemma_u64_shr_is_div(0xffff_ffff_ffff_ffffu64, s as u64);
    vstd::arithmetic::div_mod::lemma_fundamental_div_mod(0xffff_ffff_ffff_ffff, p);
    vstd::arithmetic::div_mod::lemma_mod_bound(0xffff_ffff_ffff_ffff, p);
    let mq = 0xffff_ffff_ffff_ffffint / p;
    assert(hi <= mq) by (nonlinear_arith)
        requires
            hi * p < 0x1_0000_0000_0000_0000,
            0xffff_ffff_ffff_ffff == p * mq + 0xffff_ffff_ffff_ffffint % p,
            0xffff_ffff_ffff_ffffint % p < p,
            p > 0,
    ;
    lemma_shift_pair_bits(hi, lo, s);
    lemma_shl_is_mul(hi, s);
    let a = lo >> t;
    vstd::bits::lemma_u64_shr_is_div(lo, t as u64);
    vstd::arithmetic::div_mod::lemma_fundamental_div_mod(lo as int, pt);
    vstd::arithmetic::div_mod::lemma_mod_bound(lo as int, pt);
    assert(a * pt <= lo) by (nonlinear_arith)
        requires
            lo == pt * a + (lo as int) % pt,
            (lo as int) % pt >= 0,
    ;
    lemma_shl_is_mul(a, t);
    let c = (lo - (a << t)) as u64;
    assert(c < pt);
    assert(c * p < b) by (nonlinear_arith)
        requires
            c < pt,
            pt * p == b,
            p > 0,
    ;
    lemma_shl_is_mul(c, s);
    assert((hi * p + a) * b + c * p == (hi * b + lo) * p) by (nonlinear_arith)
        requires
            lo == a * pt + c,
            pt * p == b,
    ;
}

#[verifier::rlimit(40)]
fn rem_with_reciprocal(hi: u64, lo: u64, reciprocal: &Reciprocal) -> (r: u64)
    requires
        reciprocal.wf(),
        hi < reciprocal.divisor(),
    ensures
        r == (hi * word_base() + lo) % reciprocal.divisor(),
{
    let ghost m = reciprocal.divisor();
    let ghost p = pow2(reciprocal.shift as nat) as int;
    let ghost u = hi * word_base() + lo;
    let ghost b = word_base();
    proof {
        vstd::arithmetic::power2::lemma_pow2_pos(reciprocal.shift as nat);
        assert(u < m * b) by (nonlinear_arith)
            requires
                u == hi * b + lo,
                hi + 1 <= m,
                lo < b,
        ;
        assert(hi * p < reciprocal.divisor_normalized) by (nonlinear_arith)
            requires
                hi < m,
                p > 0,
                reciprocal.divisor_normalized == m * p,
        ;
    }
    let ghost old_hi = hi;
    let ghost old_lo = lo;
    let mut hi = hi << reciprocal.shift;
    if reciprocal.shift > 0 {
        hi |= lo >> (u64::BITS - reciprocal.shift);
    }
    let lo = lo << reciprocal.shift;
    let ghost hs = hi;
    proof {
        // The shifted pair holds `u·2^shift`.
        if reciprocal.shift > 0 {
            lemma_shift_pair(old_hi, old_lo, reciprocal.shift);
            assert(u64::BITS - reciprocal.shift == (64 - reciprocal.shift) as u32);
            assert(hs == old_hi * p + (old_lo >> ((64 - reciprocal.shift) as u32)));
            vstd::bits::lemma_u64_shr_is_div(old_lo, (64 - reciprocal.shift) as u64);
            assert(hs * b + lo == u * p);
            assert(hs < reciprocal.divisor_normalized) by (nonlinear_arith)
                requires
                    hs * b + lo == u * p,
                    lo >= 0,
                    u < m * b,
                    reciprocal.divisor_normalized == m * p,
                    p > 0,
                    b > 0,
            ;
        } else {
            assert(old_hi << 0u32 == old_hi && old_lo << 0u32 == old_lo) by (bit_vector);
            vstd::arithmetic::power2::lemma2_to64();
        }
    }
    let (_q, r) = div2by1(hi, lo, reciprocal);
    proof {
        vstd::bits::lemma_u64_shr_is_div(r, reciprocal.shift as u64);
        let q = _q as int;
        assert(r == (u - q * m) * p) by (nonlinear_arith)
            requires
                hs * b + lo == u * p,
                hs * b + lo == q * (m * p) + r,
        ;
        assert(0 <= u - q * m < m) by (nonlinear_arith)
            requires
                r == (u - q * m) * p,
                0 <= r < m * p,
                p > 0,
        ;
        vstd::arithmetic::div_mod::lemma_div_multiples_vanish(u - q * m, p);
        assert(p * (u - q * m) == (u - q * m) * p) by (nonlinear_arith);
        assert(u == q * m + (u - q * m));
        vstd::arithmetic::div_mod::lemma_fundamental_div_mod_converse(u, m, q, u - q * m);
    }
    r >> reciprocal.shift
}

/// Calculates the remainder of `x` modulo the divisor that was used to create `reciprocal`.
/// The top 64 bits of `x` must be smaller than the divisor (true of any product of two
/// numbers reduced modulo it).
pub fn rem_wide_with_reciprocal(x: u128, reciprocal: &Reciprocal) -> (r: u64)
    requires
        reciprocal.wf(),
        x < reciprocal.divisor() * word_base(),
    ensures
        r == (x as int) % reciprocal.divisor(),
{
    let hi = (x >> 64u32) as u64;
    let lo = x as u64;
    proof {
        lemma_split(x);
        assert(hi < reciprocal.divisor()) by (nonlinear_arith)
            requires
                hi * word_base() + lo == x,
                lo >= 0,
                x < reciprocal.divisor() * word_base(),
        ;
    }
    rem_with_reciprocal(hi, lo, reciprocal)
}

} // verus!

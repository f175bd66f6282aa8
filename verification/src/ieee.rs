//! IEEE-754 bit patterns and the real numbers they stand for.
//!
//! A binary32 number is handled as its `u32` bit pattern and a binary16 number as its `u16` bit
//! pattern. Magnitudes are counted in units of the smallest subnormal of the format, so that every
//! finite number is an exact integer multiple of the unit: `2^-149` for binary32 and `2^-24` for
//! binary16.

use vstd::arithmetic::power2::{
    lemma2_to64, lemma_pow2_adds, lemma_pow2_pos, lemma_pow2_strictly_increases, pow2,
};
use vstd::prelude::*;

verus! {

/// `0.0`
pub const ZERO: u32 = 0x0000_0000;

/// `0.5`
pub const HALF: u32 = 0x3F00_0000;

/// `1.0`
pub const ONE: u32 = 0x3F80_0000;

/// Exponent field of a binary32 bit pattern.
pub open spec fn f32_exponent(b: u32) -> nat {
    ((b as nat) / 0x80_0000) % 256
}

/// Mantissa field of a binary32 bit pattern.
pub open spec fn f32_mantissa(b: u32) -> nat {
    (b as nat) % 0x80_0000
}

/// Whether the sign bit of a binary32 bit pattern is set.
pub open spec fn f32_negative(b: u32) -> bool {
    b >= 0x8000_0000
}

/// Whether a binary32 bit pattern is a finite number.
pub open spec fn f32_finite(b: u32) -> bool {
    f32_exponent(b) != 255
}

/// Magnitude of a finite binary32 bit pattern, in units of `2^-149`.
pub open spec fn f32_magnitude(b: u32) -> nat {
    if f32_exponent(b) == 0 {
        f32_mantissa(b)
    } else {
        (0x80_0000 + f32_mantissa(b)) * pow2((f32_exponent(b) - 1) as nat)
    }
}

/// The real number that a finite binary32 bit pattern stands for.
pub open spec fn f32_value(b: u32) -> real {
    let m = (f32_magnitude(b) as real) / (pow2(149) as real);
    if f32_negative(b) {
        0real - m
    } else {
        m
    }
}

/// Exponent field of a binary16 bit pattern.
pub open spec fn f16_exponent(h: u16) -> nat {
    ((h as nat) / 1024) % 32
}

/// Mantissa field of a binary16 bit pattern.
pub open spec fn f16_mantissa(h: u16) -> nat {
    (h as nat) % 1024
}

/// Whether the sign bit of a binary16 bit pattern is set.
pub open spec fn f16_negative(h: u16) -> bool {
    h >= 0x8000
}

/// Whether a binary16 bit pattern is a finite number.
pub open spec fn f16_finite(h: u16) -> bool {
    f16_exponent(h) != 31
}

/// Magnitude of a finite binary16 bit pattern, in units of `2^-24`.
pub open spec fn f16_magnitude(h: u16) -> nat {
    if f16_exponent(h) == 0 {
        f16_mantissa(h)
    } else {
        (1024 + f16_mantissa(h)) * pow2((f16_exponent(h) - 1) as nat)
    }
}

/// The real number that a finite binary16 bit pattern stands for.
pub open spec fn f16_value(h: u16) -> real {
    let m = (f16_magnitude(h) as real) / (pow2(24) as real);
    if f16_negative(h) {
        0real - m
    } else {
        m
    }
}

/// `r` is the binary32 pattern of the same number, with the same sign bit, as the half `h`.
pub open spec fn widens(h: u16, r: u32) -> bool {
    &&& f32_finite(r)
    &&& f32_negative(r) == f16_negative(h)
    &&& f32_value(r) == f16_value(h)
}

/// The product of two naturals, taken as a real number.
pub proof fn lemma_real_product(a: nat, b: nat)
    ensures
        (a * b) as real == (a as real) * (b as real),
    decreases b,
{
    if b == 0 {
        assert(a * b == 0) by (nonlinear_arith)
            requires
                b == 0,
        ;
        assert((a as real) * 0real == 0real) by (nonlinear_arith);
    } else {
        let c = (b - 1) as nat;
        lemma_real_product(a, c);
        assert(a * b == a * c + a) by (nonlinear_arith)
            requires
                b == c + 1,
        ;
        let x = a as real;
        let y = c as real;
        assert(b as real == y + 1real);
        assert(x * (y + 1real) == x * y + x) by (nonlinear_arith);
    }
}

/// A binary32 magnitude that is `2^125` times a binary16 magnitude stands for the same number,
/// since `2^149 == 2^125 * 2^24`.
proof fn lemma_same_value(h: u16, r: u32)
    requires
        f32_negative(r) == f16_negative(h),
        f32_magnitude(r) == f16_magnitude(h) * pow2(125),
    ensures
        f32_value(r) == f16_value(h),
{
    lemma_pow2_adds(125, 24);
    lemma_pow2_pos(125);
    lemma_pow2_pos(24);
    lemma_pow2_pos(149);
    let m = f16_magnitude(h) as real;
    let p = pow2(125) as real;
    let q = pow2(24) as real;
    lemma_real_product(f16_magnitude(h), pow2(125));
    lemma_real_product(pow2(125), pow2(24));
    assert((m * p) / (p * q) == m / q) by (nonlinear_arith)
        requires
            p > 0real,
            q > 0real,
    ;
}

/// A normal binary32 of magnitude below `2^24` is its 24-bit significand over a power of two.
pub proof fn lemma_f32_value(b: u32)
    requires
        1 <= f32_exponent(b) <= 150,
    ensures
        f32_value(b) == {
            let m = ((0x80_0000 + f32_mantissa(b)) as real) / (pow2((150 - f32_exponent(b)) as nat) as real);
            if f32_negative(b) {
                0real - m
            } else {
                m
            }
        },
{
    let e = f32_exponent(b);
    let sig = 0x80_0000 + f32_mantissa(b);
    let up = (e - 1) as nat;
    let down = (150 - e) as nat;
    lemma_pow2_adds(up, down);
    lemma_pow2_pos(up);
    lemma_pow2_pos(down);
    lemma_real_product(sig, pow2(up));
    lemma_real_product(pow2(up), pow2(down));
    let m = sig as real;
    let p = pow2(up) as real;
    let q = pow2(down) as real;
    assert((m * p) / (p * q) == m / q) by (nonlinear_arith)
        requires
            p > 0real,
            q > 0real,
    ;
}

/// Decode an IEEE-754 binary16 (half) to the bit pattern of the equal binary32.
///
/// The halves in use are always finite, so the inf/NaN exponent is left out. A normal half is a
/// re-pack: the exponent is rebiased from 15 to 127 and the mantissa is widened from 10 to 23 bits.
/// A subnormal half is brought to a leading one first. Zero keeps its sign.
pub fn f16_to_f32(h: u16) -> (r: u32)
    requires
        f16_finite(h),
    ensures
        widens(h, r),
{
    let w: u32 = h as u32;
    let sign: u32 = (w & 0x8000) << 16;
    let exp: u32 = (w >> 10) & 0x1f;
    let mant: u32 = w & 0x3ff;
    proof {
        assert(exp == (w / 1024) % 32 && mant == w % 1024) by (bit_vector)
            requires
                exp == (w >> 10) & 0x1f,
                mant == w & 0x3ff,
        ;
        assert(sign == if w >= 0x8000 { 0x8000_0000u32 } else { 0u32 }) by (bit_vector)
            requires
                sign == (w & 0x8000) << 16,
                w <= 0xffff,
        ;
    }
    if exp == 0 {
        if mant == 0 {
            proof {
                assert(f32_magnitude(sign) == 0);
                assert(0 * pow2(125) == 0);
                lemma_same_value(h, sign);
            }
            return sign;
        }
        let mut sig: u32 = mant;
        let mut e: u32 = 113;
        proof {
            lemma2_to64();
            assert(mant * 1 == mant);
        }
        while sig < 1024
            invariant
                1 <= mant < 1024,
                103 <= e <= 113,
                mant <= sig < 2048,
                sig == mant * pow2((113 - e) as nat),
                sig >= pow2((113 - e) as nat),
            decreases e,
        {
            proof {
                lemma_pow2_adds((113 - e) as nat, 1);
                lemma2_to64();
                assert(2 * (mant * pow2((113 - e) as nat)) == mant * (pow2((113 - e) as nat) * 2))
                    by (nonlinear_arith);
                if e == 103 {
                    assert(pow2(10) == 1024);
                }
            }
            sig = 2 * sig;
            e = e - 1;
        }
        let r: u32 = sign | (e << 23) | ((sig - 1024) << 13);
        proof {
            lemma_packed_fields(sign, e, (sig - 1024) as u32, r);
            let j = (113 - e) as nat;
            // (2^23 + (sig - 2^10) * 2^13) * 2^(e-1) == mant * 2^j * 2^13 * 2^(112-j)
            lemma_pow2_adds(j, 13);
            lemma_pow2_adds(j + 13, (112 - j) as nat);
            lemma2_to64();
            assert((0x80_0000 + (sig - 1024) * 8192) == sig * 8192);
            let a = pow2(j);
            let b = pow2((112 - j) as nat);
            assert((mant * a * 8192) * b == mant * (a * 8192 * b)) by (nonlinear_arith);
            lemma_same_value(h, r);
        }
        return r;
    }
    let r: u32 = sign | ((exp + 112) << 23) | (mant << 13);
    proof {
        lemma_packed_fields(sign, (exp + 112) as u32, mant, r);
        lemma_pow2_adds((exp - 1) as nat, 112);
        lemma_pow2_adds(13, 112);
        lemma2_to64();
        let a = pow2((exp - 1) as nat);
        let b = pow2(112);
        assert(((1024 + mant) * 8192) * (a * b) == (1024 + mant) * a * (8192 * b))
            by (nonlinear_arith);
        lemma_same_value(h, r);
    }
    r
}

/// The fields of a binary32 pattern assembled from a sign bit, an exponent and the ten leading
/// mantissa bits.
proof fn lemma_packed_fields(sign: u32, e: u32, m: u32, r: u32)
    requires
        sign == 0 || sign == 0x8000_0000,
        e < 255,
        m < 1024,
        r == sign | (e << 23) | (m << 13),
    ensures
        f32_exponent(r) == e,
        f32_mantissa(r) == m * 8192,
        f32_negative(r) == (sign != 0),
{
    assert(r == sign + e * 0x80_0000 + m * 8192) by (bit_vector)
        requires
            sign == 0 || sign == 0x8000_0000,
            e < 255,
            m < 1024,
            r == sign | (e << 23) | (m << 13),
    ;
}

/// A normal magnitude lies between two adjacent powers of two, which its exponent gives.
proof fn lemma_magnitude_range(b: u32)
    requires
        f32_exponent(b) >= 1,
    ensures
        pow2((f32_exponent(b) + 22) as nat) <= f32_magnitude(b) < pow2((f32_exponent(b) + 23) as nat),
{
    let up = (f32_exponent(b) - 1) as nat;
    let sig = 0x80_0000 + f32_mantissa(b);
    lemma2_to64();
    lemma_pow2_adds(23, up);
    lemma_pow2_adds(24, up);
    lemma_pow2_pos(up);
    let p = pow2(up);
    assert(0x80_0000 * p <= sig * p < 0x100_0000 * p) by (nonlinear_arith)
        requires
            0x80_0000 <= sig < 0x100_0000,
            p > 0,
    ;
}

/// Magnitudes of different exponents differ.
proof fn lemma_magnitude_order(a: u32, b: u32)
    requires
        f32_exponent(a) < f32_exponent(b),
    ensures
        f32_magnitude(a) < f32_magnitude(b),
{
    lemma_magnitude_range(b);
    let e = f32_exponent(b);
    lemma2_to64();
    if f32_exponent(a) == 0 {
        if e > 1 {
            lemma_pow2_strictly_increases(23, (e + 22) as nat);
        }
    } else {
        lemma_magnitude_range(a);
        let d = f32_exponent(a) + 23;
        if d < e + 22 {
            lemma_pow2_strictly_increases(d, (e + 22) as nat);
        }
    }
}

/// A number and its sign determine its binary32 bit pattern.
pub proof fn law_f32_pattern_unique(a: u32, b: u32)
    requires
        f32_finite(a),
        f32_finite(b),
        f32_negative(a) == f32_negative(b),
        f32_value(a) == f32_value(b),
    ensures
        a == b,
{
    lemma_pow2_pos(149);
    let p = pow2(149) as real;
    let x = f32_magnitude(a) as real;
    let y = f32_magnitude(b) as real;
    assert(x == y) by (nonlinear_arith)
        requires
            x / p == y / p,
            p > 0real,
    ;
    if f32_exponent(a) < f32_exponent(b) {
        lemma_magnitude_order(a, b);
    } else if f32_exponent(b) < f32_exponent(a) {
        lemma_magnitude_order(b, a);
    } else if f32_exponent(a) >= 1 {
        let up = (f32_exponent(a) - 1) as nat;
        let q = pow2(up);
        let m = 0x80_0000 + f32_mantissa(a);
        let n = 0x80_0000 + f32_mantissa(b);
        lemma_pow2_pos(up);
        assert(m == n) by (nonlinear_arith)
            requires
                m * q == n * q,
                q > 0,
        ;
    }
}

/// A half widens to one binary32 bit pattern only.
pub proof fn law_widens_unique(h: u16, a: u32, b: u32)
    requires
        widens(h, a),
        widens(h, b),
    ensures
        a == b,
{
    law_f32_pattern_unique(a, b);
}

} // verus!

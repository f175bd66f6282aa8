//! What the coding of numbers answers: halves, signed integers, bits and codes.
//!
//! Each law says in plain arithmetic what a function returned for its arguments.

use crate::ieee::{
    f16_exponent, f16_finite, f16_magnitude, f16_mantissa, f16_to_f32, f16_value, f32_exponent,
    f32_finite, f32_magnitude, f32_mantissa, f32_value, lemma_f32_value,
};
use crate::rice::{
    bit_at, bits_from, bits_value, rice_code, rice_decode, unzigzag, zero_run, BitReader,
};
use vstd::arithmetic::power2::{lemma2_to64, lemma_pow2_adds, lemma_pow2_pos, pow2};
use vstd::prelude::*;

verus! {

// ----------------------------------------------------------------------------
// Numbers
// ----------------------------------------------------------------------------

/// The numbers of the halves up to the pattern of `2^-13`.
proof fn lemma_small_half(h: u16)
    requires
        h < 0x800,
    ensures
        f16_value(h) == (h as real) / 16777216real,
{
    lemma2_to64();
    if h < 0x400 {
        assert(f16_exponent(h) == 0 && f16_mantissa(h) == h);
    } else {
        assert(f16_exponent(h) == 1 && f16_mantissa(h) == h - 0x400);
        assert(f16_magnitude(h) == h * pow2(0));
    }
}

/// A step of the exponent of a half.
proof fn lemma_half_step(h: u16)
    requires
        0x400 <= h < 0x7800,
    ensures
        f16_value((h + 0x400) as u16) == 2real * f16_value(h),
{
    let e = f16_exponent(h);
    let g = (h + 0x400) as u16;
    assert(e == h / 1024 && f16_exponent(g) == e + 1 && f16_mantissa(g) == f16_mantissa(h));
    let p = pow2((e - 1) as nat);
    assert(pow2(e) == p * 2) by {
        lemma_pow2_adds((e - 1) as nat, 1);
        lemma2_to64();
    }
    let sig = (1024 + f16_mantissa(h)) as nat;
    assert(sig * (p * 2) == 2 * (sig * p)) by (nonlinear_arith);
    lemma_pow2_pos(24);
    lemma_doubled(f16_magnitude(h), f16_magnitude(g), pow2(24));
}

/// Twice as many units are twice the number.
proof fn lemma_doubled(m: nat, n: nat, unit: nat)
    requires
        n == 2 * m,
        unit > 0,
    ensures
        (n as real) / (unit as real) == 2real * ((m as real) / (unit as real)),
{
    let x = m as real;
    let u = unit as real;
    assert(n as real == 2real * x);
    assert((2real * x) / u == 2real * (x / u)) by (nonlinear_arith)
        requires
            u > 0real,
    ;
}

/// The numbers of halves: evenly spaced by `2^-24` up to the pattern of `2^-13`, twice as large with every step
/// of the exponent from there on, and negated by the sign bit. The patterns from `0x7C00` on are not numbers.
pub proof fn law_half_numbers(h: u16)
    ensures
        h < 0x800 ==> f16_value(h) == (h as real) / 16777216real,
        0x400 <= h < 0x7800 ==> f16_value((h + 0x400) as u16) == 2real * f16_value(h),
        h < 0x8000 ==> f16_value((h + 0x8000) as u16) == 0real - f16_value(h),
        f16_finite(h) <==> h % 0x8000 < 0x7C00,
{
    if h < 0x800 {
        lemma_small_half(h);
    }
    if 0x400 <= h < 0x7800 {
        lemma_half_step(h);
    }
    if h < 0x8000 {
        let g = (h + 0x8000) as u16;
        assert(f16_exponent(g) == f16_exponent(h) && f16_mantissa(g) == f16_mantissa(h));
    }
}

/// A step of the exponent of a binary32 pattern.
proof fn lemma_single_step(b: u32)
    requires
        0x80_0000 <= b < 0x7F00_0000,
    ensures
        f32_value((b + 0x80_0000) as u32) == 2real * f32_value(b),
{
    let e = f32_exponent(b);
    let g = (b + 0x80_0000) as u32;
    assert(e == b / 0x80_0000 && f32_exponent(g) == e + 1 && f32_mantissa(g) == f32_mantissa(b));
    let p = pow2((e - 1) as nat);
    assert(pow2(e) == p * 2) by {
        lemma_pow2_adds((e - 1) as nat, 1);
        lemma2_to64();
    }
    let sig = (0x80_0000 + f32_mantissa(b)) as nat;
    assert(sig * (p * 2) == 2 * (sig * p)) by (nonlinear_arith);
    lemma_pow2_pos(149);
    lemma_doubled(f32_magnitude(b), f32_magnitude(g), pow2(149));
}

/// The numbers below the first normal one.
proof fn lemma_small_single(b: u32)
    requires
        b < 0x80_0000,
    ensures
        8388608real * f32_value(b) == (b as real) * f32_value(0x80_0000),
{
    let first = 0x80_0000u32;
    assert(f32_exponent(b) == 0 && f32_mantissa(b) == b);
    assert(f32_exponent(first) == 1 && f32_mantissa(first) == 0);
    assert(pow2(0) == 1) by {
        lemma2_to64();
    }
    assert(f32_magnitude(first) == 0x80_0000 * pow2(0));
    lemma_pow2_pos(149);
    let unit = pow2(149) as real;
    let m = b as real;
    assert(8388608real * (m / unit) == m * (8388608real / unit)) by (nonlinear_arith)
        requires
            unit > 0real,
    ;
}

/// The numbers of binary32 patterns: `1 + m / 2^23` at `m` patterns behind the one of one, twice as large with
/// every step of the exponent, evenly spaced below the first normal number, and negated by the sign bit. The
/// patterns from `0x7F80_0000` on are not numbers.
pub proof fn law_single_numbers(b: u32)
    ensures
        0x3F80_0000 <= b < 0x4000_0000 ==> f32_value(b) == 1real + ((b - 0x3F80_0000) as real) / 8388608real,
        0x80_0000 <= b < 0x7F00_0000 ==> f32_value((b + 0x80_0000) as u32) == 2real * f32_value(b),
        b < 0x80_0000 ==> 8388608real * f32_value(b) == (b as real) * f32_value(0x80_0000),
        b < 0x8000_0000 ==> f32_value((b + 0x8000_0000) as u32) == 0real - f32_value(b),
        f32_finite(b) <==> b % 0x8000_0000 < 0x7F80_0000,
{
    if 0x3F80_0000 <= b < 0x4000_0000 {
        assert(f32_exponent(b) == 127 && f32_mantissa(b) == b - 0x3F80_0000);
        lemma_f32_value(b);
        assert(pow2(23) == 8388608) by {
            lemma2_to64();
        }
        let m = (b - 0x3F80_0000) as real;
        assert((0x80_0000 + f32_mantissa(b)) as real == 8388608real + m);
        assert(f32_value(b) == (8388608real + m) / 8388608real);
    }
    if 0x80_0000 <= b < 0x7F00_0000 {
        lemma_single_step(b);
    }
    if b < 0x80_0000 {
        lemma_small_single(b);
    }
    if b < 0x8000_0000 {
        let g = (b + 0x8000_0000) as u32;
        assert(f32_exponent(g) == f32_exponent(b) && f32_mantissa(g) == f32_mantissa(b));
    }
}

/// [`f16_to_f32`] returns the pattern of the same number with the same sign bit.
pub proof fn law_widen_answer(h: u16, r: u32)
    requires
        call_ensures(f16_to_f32, (h,), r),
    ensures
        f32_value(r) == f16_value(h),
        r >= 0x8000_0000 <==> h >= 0x8000,
        r % 0x8000_0000 < 0x7F80_0000,
{
    law_single_numbers(r);
}

/// [`unzigzag`] counts the integers `0, -1, 1, -2, 2, ..`.
pub proof fn law_unzigzag_answer(z: u32, r: i32)
    requires
        call_ensures(unzigzag, (z,), r),
    ensures
        z % 2 == 0 ==> 2 * r == z,
        z % 2 == 1 ==> -2 * r - 1 == z,
{
}

// ----------------------------------------------------------------------------
// Bits
// ----------------------------------------------------------------------------

/// A bit of a byte sequence is a bit of one of its bytes.
proof fn lemma_bit(d: Seq<u8>, i: int, j: int)
    requires
        0 <= i < d.len(),
        0 <= j < 8,
    ensures
        bit_at(d, 8 * i + j) == ((d[i] as nat / pow2((7 - j) as nat)) % 2 == 1),
{
    assert((8 * i + j) / 8 == i && (8 * i + j) % 8 == j);
}

/// The bits of a byte.
proof fn lemma_byte(b: u8)
    ensures
        (b as nat / 128) % 2 == 1 <==> b >= 128,
        (b as nat / 64) % 2 == 1 <==> b % 128 >= 64,
        (b as nat / 32) % 2 == 1 <==> b % 64 >= 32,
        (b as nat / 16) % 2 == 1 <==> b % 32 >= 16,
        (b as nat / 8) % 2 == 1 <==> b % 16 >= 8,
        (b as nat / 4) % 2 == 1 <==> b % 8 >= 4,
        (b as nat / 2) % 2 == 1 <==> b % 4 >= 2,
        (b as nat / 1) % 2 == 1 <==> b % 2 == 1,
{
}

/// The bits of a byte sequence are those of its bytes, the most significant first.
pub proof fn law_bit_order(d: Seq<u8>, i: int)
    requires
        0 <= i < d.len(),
    ensures
        bit_at(d, 8 * i + 0) <==> d[i] >= 128,
        bit_at(d, 8 * i + 1) <==> d[i] % 128 >= 64,
        bit_at(d, 8 * i + 2) <==> d[i] % 64 >= 32,
        bit_at(d, 8 * i + 3) <==> d[i] % 32 >= 16,
        bit_at(d, 8 * i + 4) <==> d[i] % 16 >= 8,
        bit_at(d, 8 * i + 5) <==> d[i] % 8 >= 4,
        bit_at(d, 8 * i + 6) <==> d[i] % 4 >= 2,
        bit_at(d, 8 * i + 7) <==> d[i] % 2 == 1,
{
    assert(pow2(0) == 1 && pow2(1) == 2 && pow2(2) == 4 && pow2(3) == 8 && pow2(4) == 16 && pow2(5) == 32 && pow2(
        6,
    ) == 64 && pow2(7) == 128) by {
        lemma2_to64();
    }
    lemma_byte(d[i]);
    lemma_bit(d, i, 0);
    lemma_bit(d, i, 1);
    lemma_bit(d, i, 2);
    lemma_bit(d, i, 3);
    lemma_bit(d, i, 4);
    lemma_bit(d, i, 5);
    lemma_bit(d, i, 6);
    lemma_bit(d, i, 7);
}

/// All bits of a byte sequence from a place on.
pub proof fn law_bits_from(d: Seq<u8>, pos: int)
    requires
        0 <= pos <= 8 * d.len(),
    ensures
        bits_from(d, pos).len() == 8 * d.len() - pos,
        forall|j: int| 0 <= j < 8 * d.len() - pos ==> #[trigger] bits_from(d, pos)[j] == bit_at(d, pos + j),
{
}

/// The number of a run of bits doubles with every bit that follows, and grows by one where that is set.
pub proof fn law_bits_number(s: Seq<bool>, bit: bool)
    ensures
        bits_value(Seq::empty()) == 0,
        bits_value(s.push(bit)) == 2 * bits_value(s) + if bit {
            1int
        } else {
            0int
        },
{
    assert(s.push(bit).drop_last() =~= s);
}

/// `v` is coded by the first `len` bits: `q` zeros, fewer than 24, a one and `k` low bits. The number of zeros
/// counts in steps of `2^k`.
pub open spec fn is_short_code(s: Seq<bool>, k: nat, q: int, v: nat, len: nat) -> bool {
    &&& 0 <= q < 24
    &&& k < 32
    &&& len == q + 1 + k
    &&& len <= s.len()
    &&& forall|i: int| 0 <= i < q ==> !#[trigger] s[i]
    &&& s[q]
    &&& v == (q * pow2(k)) % 0x1_0000_0000 + bits_value(s.subrange(q + 1, q + 1 + k))
}

/// `v` is coded by the first `len` bits: 24 zeros and all 32 bits of `v`.
pub open spec fn is_long_code(s: Seq<bool>, v: nat, len: nat) -> bool {
    &&& len == 56
    &&& len <= s.len()
    &&& forall|i: int| 0 <= i < 24 ==> !#[trigger] s[i]
    &&& v == bits_value(s.subrange(24, 56))
}

/// `v` is coded by the first `len` bits.
pub open spec fn is_code(s: Seq<bool>, k: nat, v: nat, len: nat) -> bool {
    ||| exists|q: int| #[trigger] is_short_code(s, k, q, v, len)
    ||| is_long_code(s, v, len)
}

/// The run of zeros at the front ends at the first one.
proof fn lemma_run(s: Seq<bool>)
    ensures
        zero_run(s) <= s.len(),
        forall|i: int| 0 <= i < zero_run(s) ==> !#[trigger] s[i],
        zero_run(s) < s.len() ==> s[zero_run(s) as int],
    decreases s.len(),
{
    if s.len() != 0 && !s[0] {
        let t = s.drop_first();
        lemma_run(t);
        assert forall|i: int| 0 <= i < zero_run(s) implies !#[trigger] s[i] by {
            if i > 0 {
                assert(s[i] == t[i - 1]);
            }
        }
    }
}

/// A sequence of bits starts with the code of a value exactly where it can be read as one.
pub proof fn law_code_answer(s: Seq<bool>, k: nat, v: nat, len: nat)
    ensures
        rice_code(s, k) == Some((v, len)) <==> is_code(s, k, v, len),
{
    lemma_run(s);
    let z = zero_run(s);
    if rice_code(s, k) == Some((v, len)) {
        if z < 24 {
            assert(is_short_code(s, k, z as int, v, len));
        }
    }
    if is_long_code(s, v, len) {
        if z < 24 {
            assert(!s[z as int]);
        }
    }
    if exists|q: int| #[trigger] is_short_code(s, k, q, v, len) {
        let q = choose|q: int| #[trigger] is_short_code(s, k, q, v, len);
        if z < q {
            assert(!s[z as int]);
        }
        if q < z {
            assert(!s[q]);
        }
    }
}

/// [`BitReader::new`] starts at the first bit and ends behind the last.
pub proof fn law_reader_answer(data: &[u8], br: BitReader)
    requires
        call_ensures(BitReader::new, (data,), br),
    ensures
        br.rest().len() == 8 * data@.len(),
        forall|j: int| 0 <= j < 8 * data@.len() ==> #[trigger] br.rest()[j] == bit_at(data@, j),
{
    law_bits_from(data@, 0);
}

/// [`BitReader::remaining`] counts the bits that are left, and [`BitReader::has_code`] says whether they start
/// with a code.
pub proof fn law_left_answer(br: BitReader, left: usize, k: u32, has: bool)
    requires
        call_ensures(BitReader::remaining, (&br,), left),
        call_ensures(BitReader::has_code, (&br, k), has),
    ensures
        left == br.rest().len(),
        has <==> exists|v: nat, len: nat| #[trigger] is_code(br.rest(), k as nat, v, len),
{
    let s = br.rest();
    if has {
        let c = rice_code(s, k as nat).unwrap();
        law_code_answer(s, k as nat, c.0, c.1);
    }
    if exists|v: nat, len: nat| #[trigger] is_code(s, k as nat, v, len) {
        let (v, len) = choose|v: nat, len: nat| #[trigger] is_code(s, k as nat, v, len);
        law_code_answer(s, k as nat, v, len);
    }
}

/// [`BitReader::get_bit`] returns the next bit, and goes on behind it.
pub proof fn law_get_bit_answer(br: &mut BitReader, r: u32)
    requires
        call_ensures(BitReader::get_bit, (br,), r),
        old(br).rest().len() > 0,
    ensures
        r == 0 || r == 1,
        r == 1 <==> old(br).rest()[0],
        final(br).rest().len() == old(br).rest().len() - 1,
        forall|j: int|
            0 <= j < old(br).rest().len() - 1 ==> #[trigger] final(br).rest()[j] == old(br).rest()[j + 1],
{
}

/// [`BitReader::get_bits`] returns the number of the next bits, of which it keeps the 32 low ones, and goes on
/// behind them.
pub proof fn law_get_bits_answer(br: &mut BitReader, n: u32, r: u32)
    requires
        call_ensures(BitReader::get_bits, (br, n), r),
        old(br).rest().len() >= n,
    ensures
        r == bits_value(old(br).rest().subrange(0, n as int)) % 0x1_0000_0000,
        final(br).rest().len() == old(br).rest().len() - n,
        forall|j: int|
            0 <= j < old(br).rest().len() - n ==> #[trigger] final(br).rest()[j] == old(br).rest()[j + n],
{
    assert(old(br).rest().take(n as int) =~= old(br).rest().subrange(0, n as int));
}

/// [`rice_decode`] returns the value that is coded by the next bits, and goes on behind them.
pub proof fn law_decode_answer(br: &mut BitReader, k: u32, r: u32)
    requires
        call_ensures(rice_decode, (br, k), r),
        exists|v: nat, len: nat| #[trigger] is_code(old(br).rest(), k as nat, v, len),
    ensures
        ({
            let len = old(br).rest().len() - final(br).rest().len();
            &&& len >= 0
            &&& is_code(old(br).rest(), k as nat, r as nat, len as nat)
            &&& forall|j: int|
                0 <= j < old(br).rest().len() - len ==> #[trigger] final(br).rest()[j] == old(br).rest()[j + len]
        }),
{
    let s = old(br).rest();
    let (v, len) = choose|v: nat, len: nat| #[trigger] is_code(s, k as nat, v, len);
    law_code_answer(s, k as nat, v, len);
    law_code_answer(s, k as nat, r as nat, (s.len() - final(br).rest().len()) as nat);
}

} // verus!

//! Golomb-Rice codes over a most-significant-bit-first bit stream, and the zigzag map from the
//! unsigned code values to signed integers.

use vstd::arithmetic::power2::{
    lemma2_to64, lemma_pow2_adds, lemma_pow2_pos, lemma_pow2_strictly_increases, pow2,
};
use vstd::arithmetic::div_mod::{lemma_fundamental_div_mod, lemma_small_mod, lemma_mod_bound};
use vstd::prelude::*;

verus! {

/// Max unary run before the escape, which a raw 32-bit value follows.
pub const ESCAPE_RUN: u32 = 24;

// ----------------------------------------------------------------------------
// Zigzag
// ----------------------------------------------------------------------------

/// The signed integer that a zigzag code stands for: `0, 1, 2, 3, ..` are `0, -1, 1, -2, ..`.
pub open spec fn zigzag_value(z: int) -> int {
    if z % 2 == 0 {
        z / 2
    } else {
        -(z / 2) - 1
    }
}

/// The zigzag code of a signed integer.
pub open spec fn zigzag_code(v: int) -> int {
    if v >= 0 {
        2 * v
    } else {
        -2 * v - 1
    }
}

/// Undo the zigzag map.
pub fn unzigzag(z: u32) -> (r: i32)
    ensures
        r == zigzag_value(z as int),
{
    let half: i32 = (z >> 1) as i32;
    let odd: i32 = (z & 1) as i32;
    proof {
        assert(half == z / 2 && odd == z % 2 && 0 <= half) by (bit_vector)
            requires
                half == (z >> 1) as i32,
                odd == (z & 1) as i32,
        ;
        assert(half ^ 0i32 == half && half ^ (-1i32) == -half - 1) by (bit_vector);
    }
    half ^ -odd
}

/// Zigzag is a bijection between the 32-bit signed and the 32-bit unsigned integers.
pub proof fn law_zigzag_bijection(v: i32, z: u32)
    ensures
        0 <= zigzag_code(v as int) <= u32::MAX,
        zigzag_value(zigzag_code(v as int)) == v,
        i32::MIN <= zigzag_value(z as int) <= i32::MAX,
        zigzag_code(zigzag_value(z as int)) == z,
{
}

// ----------------------------------------------------------------------------
// Bits
// ----------------------------------------------------------------------------

/// Bit `i` of a byte sequence, counting from the most significant bit of the first byte.
pub open spec fn bit_at(data: Seq<u8>, i: int) -> bool {
    ((data[i / 8] as nat) / pow2((7 - i % 8) as nat)) % 2 == 1
}

/// All bits of a byte sequence from bit `pos` on.
pub open spec fn bits_from(data: Seq<u8>, pos: int) -> Seq<bool> {
    Seq::new((8 * data.len() - pos) as nat, |j: int| bit_at(data, pos + j))
}

/// The number that bits spell out, most significant first.
pub open spec fn bits_value(s: Seq<bool>) -> nat
    decreases s.len(),
{
    if s.len() == 0 {
        0
    } else {
        2 * bits_value(s.drop_last()) + if s.last() { 1nat } else { 0nat }
    }
}

/// The `n` low bits of `v`, most significant first.
pub open spec fn low_bits(v: nat, n: nat) -> Seq<bool>
    decreases n,
{
    if n == 0 {
        Seq::empty()
    } else {
        low_bits(v / 2, (n - 1) as nat).push(v % 2 == 1)
    }
}

/// Length of the run of zero bits at the front.
pub open spec fn zero_run(s: Seq<bool>) -> nat
    decreases s.len(),
{
    if s.len() == 0 || s[0] {
        0
    } else {
        1 + zero_run(s.drop_first())
    }
}

/// The code at the front of a bit sequence, as its value and its length in bits. There is none
/// where the bits end before the code does, nor where `k` asks for more low bits than a value has.
/// An escape does not depend on `k`.
pub open spec fn rice_code(s: Seq<bool>, k: nat) -> Option<(nat, nat)> {
    let q = zero_run(s);
    if q >= ESCAPE_RUN {
        if s.len() >= ESCAPE_RUN + 32 {
            Some((bits_value(s.subrange(ESCAPE_RUN as int, ESCAPE_RUN + 32)), (ESCAPE_RUN + 32) as nat))
        } else {
            None
        }
    } else if k < 32 && q + 1 + k <= s.len() {
        let low = bits_value(s.subrange(q as int + 1, (q + 1 + k) as int));
        Some(((q * pow2(k)) % 0x1_0000_0000 + low, q + 1 + k))
    } else {
        None
    }
}

/// The code that stands for `v`: a unary quotient, a one bit and the `k` low bits, or the escape
/// run and the raw 32-bit value where the quotient is too long or `k` is.
pub open spec fn rice_encoding(v: nat, k: nat) -> Seq<bool> {
    let q = v / pow2(k);
    if q >= ESCAPE_RUN || k >= 32 {
        zeros(ESCAPE_RUN as nat) + low_bits(v, 32)
    } else {
        zeros(q).push(true) + low_bits(v, k)
    }
}

/// `n` zero bits.
pub open spec fn zeros(n: nat) -> Seq<bool> {
    Seq::new(n, |i: int| false)
}

pub struct BitReader<'a> {
    data: &'a [u8],
    pos: usize,
}

impl<'a> BitReader<'a> {
    /// The bits that are still to be read.
    pub closed spec fn rest(&self) -> Seq<bool> {
        bits_from(self.data@, self.pos as int)
    }

    #[verifier::type_invariant]
    spec fn inv(self) -> bool {
        8 * self.data@.len() <= usize::MAX && self.pos <= 8 * self.data@.len()
    }

    pub fn new(data: &'a [u8]) -> (r: Self)
        requires
            8 * data@.len() <= usize::MAX,
        ensures
            r.rest() == bits_from(data@, 0),
    {
        Self { data, pos: 0 }
    }

    /// Number of bits that are still to be read.
    pub fn remaining(&self) -> (r: usize)
        ensures
            r == self.rest().len(),
    {
        proof {
            use_type_invariant(self);
        }
        8 * self.data.len() - self.pos
    }

    /// Whether bit `i` of those still to be read is set.
    fn peek(&self, i: usize) -> (r: bool)
        requires
            i < self.rest().len(),
        ensures
            r == self.rest()[i as int],
    {
        proof {
            use_type_invariant(self);
        }
        let p: usize = self.pos + i;
        let byte: u8 = self.data[p / 8];
        let sh: u8 = 7 - (p % 8) as u8;
        proof {
            lemma_byte_bit(byte, sh);
        }
        (byte >> sh) & 1 == 1
    }

    /// Read one bit.
    pub fn get_bit(&mut self) -> (r: u32)
        requires
            old(self).rest().len() > 0,
        ensures
            r == if old(self).rest()[0] { 1u32 } else { 0u32 },
            final(self).rest() == old(self).rest().drop_first(),
    {
        proof {
            use_type_invariant(&*self);
        }
        let bit: bool = self.peek(0);
        self.pos = self.pos + 1;
        assert(self.rest() =~= old(self).rest().drop_first());
        if bit {
            1
        } else {
            0
        }
    }

    /// Read `n` bits, most significant first. Only the last 32 of them are kept.
    pub fn get_bits(&mut self, n: u32) -> (r: u32)
        requires
            old(self).rest().len() >= n,
        ensures
            r == bits_value(old(self).rest().take(n as int)) % 0x1_0000_0000,
            final(self).rest() == old(self).rest().skip(n as int),
    {
        let mut v: u32 = 0;
        let mut i: u32 = 0;
        let ghost s = self.rest();
        assert(s.skip(0) =~= s);
        while i < n
            invariant
                i <= n,
                s.len() >= n,
                self.rest() == s.skip(i as int),
                v == bits_value(s.take(i as int)) % 0x1_0000_0000,
            decreases n - i,
        {
            let bit: u32 = self.get_bit();
            let ghost w = v;
            v = (v << 1) | bit;
            proof {
                assert(v == (2 * w + bit) % 0x1_0000_0000) by (bit_vector)
                    requires
                        v == (w << 1) | bit,
                        bit <= 1,
                ;
                let t = s.take(i + 1);
                assert(t.drop_last() =~= s.take(i as int));
                assert(s.skip(i as int).drop_first() =~= s.skip(i + 1));
            }
            i = i + 1;
        }
        v
    }

    /// Whether the bits still to be read start with a whole code of parameter `k`.
    pub fn has_code(&self, k: u32) -> (r: bool)
        ensures
            r == (rice_code(self.rest(), k as nat) is Some),
    {
        let ghost s = self.rest();
        let n: usize = self.remaining();
        let mut q: usize = 0;
        assert(s.skip(0) =~= s);
        while q < n && q < 24 && !self.peek(q)
            invariant
                q <= n,
                q <= 24,
                n == s.len(),
                s == self.rest(),
                zero_run(s) == q + zero_run(s.skip(q as int)),
            decreases n - q,
        {
            assert(s.skip(q as int).drop_first() =~= s.skip(q + 1));
            q = q + 1;
        }
        if q == 24 {
            n >= 56
        } else {
            k < 32 && n - q > k as usize
        }
    }
}

/// Decode one code of parameter `k`.
pub fn rice_decode(br: &mut BitReader, k: u32) -> (r: u32)
    requires
        rice_code(old(br).rest(), k as nat) is Some,
    ensures
        rice_code(old(br).rest(), k as nat) == Some((r as nat, (old(br).rest().len() - final(br).rest().len()) as nat)),
        final(br).rest() == old(br).rest().skip(rice_code(old(br).rest(), k as nat).unwrap().1 as int),
{
    let ghost s = br.rest();
    let mut q: u32 = 0;
    assert(s.skip(0) =~= s);
    loop
        invariant_except_break
            q < ESCAPE_RUN,
            br.rest() == s.skip(q as int),
            zero_run(s) == q + zero_run(s.skip(q as int)),
        invariant
            s == old(br).rest(),
            rice_code(s, k as nat) is Some,
        ensures
            q < ESCAPE_RUN,
            q == zero_run(s),
            br.rest() == s.skip(q + 1),
        decreases 24 - q,
    {
        let bit: u32 = br.get_bit();
        assert(s.skip(q as int).drop_first() =~= s.skip(q + 1));
        if bit != 0 {
            break;
        }
        q = q + 1;
        if q == ESCAPE_RUN {
            proof {
                assert(s.skip(24).take(32) =~= s.subrange(24, 56));
                assert(s.skip(24).skip(32) =~= s.skip(56));
                lemma_bits_value_bound(s.subrange(24, 56));
                lemma2_to64();
            }
            // escaped raw value (no terminating 1)
            return br.get_bits(32);
        }
    }
    let ghost low_bits = s.subrange(q + 1, q + 1 + k);
    proof {
        assert(s.skip(q + 1).take(k as int) =~= low_bits);
        assert(s.skip(q + 1).skip(k as int) =~= s.skip(q + 1 + k));
        lemma_bits_value_bound(low_bits);
        lemma_small_pow(k as nat);
        lemma_small_mod(bits_value(low_bits), 0x1_0000_0000);
    }
    let low: u32 = if k > 0 {
        br.get_bits(k)
    } else {
        0
    };
    let r: u32 = (q << k) | low;
    proof {
        lemma_shifted_sum(q, k, low, r);
    }
    r
}

/// The value of `n` bits is below `2^n`.
pub proof fn lemma_bits_value_bound(s: Seq<bool>)
    ensures
        bits_value(s) < pow2(s.len()),
    decreases s.len(),
{
    if s.len() == 0 {
        lemma2_to64();
    } else {
        lemma_bits_value_bound(s.drop_last());
        lemma_pow2_adds((s.len() - 1) as nat, 1);
        lemma2_to64();
    }
}

/// Powers of two below `2^32`.
proof fn lemma_small_pow(k: nat)
    requires
        k < 32,
    ensures
        0 < pow2(k) <= 0x8000_0000,
        (1u32 << (k as u32)) == pow2(k),
{
    lemma2_to64();
    lemma_pow2_pos(k);
    if k < 31 {
        lemma_pow2_strictly_increases(k, 31);
    }
    vstd::bits::lemma_u32_shl_is_mul(1, k as u32);
}

/// Shifting the quotient up and or-ing in the low bits adds them.
pub proof fn lemma_shifted_sum(q: u32, k: u32, low: u32, r: u32)
    requires
        k < 32,
        low < pow2(k as nat),
        r == (q << k) | low,
    ensures
        r == (q * pow2(k as nat)) % 0x1_0000_0000 + low,
{
    lemma_small_pow(k as nat);
    let p: u32 = 1u32 << k;
    assert((q << k) == (q as u64 * p as u64) % 0x1_0000_0000 && r == (q << k) + low) by (bit_vector)
        requires
            k < 32,
            p == 1u32 << k,
            low < p,
            r == (q << k) | low,
    ;
    assert(q as u64 * p as u64 == q * pow2(k as nat)) by (nonlinear_arith)
        requires
            p == pow2(k as nat),
    ;
}

/// Shifting a byte right and masking picks the bit that division picks.
proof fn lemma_byte_bit(b: u8, sh: u8)
    requires
        sh < 8,
    ensures
        ((b >> sh) & 1 == 1) == ((b as nat) / pow2(sh as nat) % 2 == 1),
        (b >> sh) & 1 == 0 || (b >> sh) & 1 == 1,
{
    lemma2_to64();
    assert((b >> 0) & 1 == b % 2) by (bit_vector);
    assert((b >> 1) & 1 == (b / 2) % 2) by (bit_vector);
    assert((b >> 2) & 1 == (b / 4) % 2) by (bit_vector);
    assert((b >> 3) & 1 == (b / 8) % 2) by (bit_vector);
    assert((b >> 4) & 1 == (b / 16) % 2) by (bit_vector);
    assert((b >> 5) & 1 == (b / 32) % 2) by (bit_vector);
    assert((b >> 6) & 1 == (b / 64) % 2) by (bit_vector);
    assert((b >> 7) & 1 == (b / 128) % 2) by (bit_vector);
    assert(sh == 0 || sh == 1 || sh == 2 || sh == 3 || sh == 4 || sh == 5 || sh == 6 || sh == 7);
}

/// `low_bits` writes `n` bits, which spell out the number modulo `2^n`.
proof fn lemma_low_bits(v: nat, n: nat)
    ensures
        low_bits(v, n).len() == n,
        bits_value(low_bits(v, n)) == v % pow2(n),
    decreases n,
{
    lemma_pow2_pos(n);
    if n == 0 {
        lemma2_to64();
    } else {
        let m = (n - 1) as nat;
        let h = v / 2;
        lemma_low_bits(h, m);
        assert(low_bits(v, n).drop_last() =~= low_bits(h, m));
        lemma_pow2_adds(m, 1);
        lemma2_to64();
        lemma_pow2_pos(m);
        let p = pow2(m) as int;
        lemma_fundamental_div_mod(h as int, p);
        lemma_mod_bound(h as int, p);
        // v == 2 * h + v % 2 == (2 * p) * (h / p) + (2 * (h % p) + v % 2)
        let quot = h as int / p;
        let rem = 2 * (h as int % p) + v as int % 2;
        assert(v == quot * (2 * p) + rem) by (nonlinear_arith)
            requires
                v as int == 2 * (h as int) + v as int % 2,
                h as int == p * quot + h as int % p,
                rem == 2 * (h as int % p) + v as int % 2,
        ;
        vstd::arithmetic::div_mod::lemma_fundamental_div_mod_converse(v as int, 2 * p, quot, rem);
    }
}

/// A run of zeros that a one bit ends, and a run of zeros that anything may follow.
proof fn lemma_zero_run(q: nat, tail: Seq<bool>)
    ensures
        zero_run(zeros(q) + tail) == q + zero_run(tail),
    decreases q,
{
    let s = zeros(q) + tail;
    if q == 0 {
        assert(s =~= tail);
    } else {
        let r = (q - 1) as nat;
        lemma_zero_run(r, tail);
        assert(s.drop_first() =~= zeros(r) + tail);
    }
}

/// Reading gives back what was written: the code of any 32-bit value is decoded to that value, and
/// as many bits are taken as were written, whatever follows them.
pub proof fn law_rice_round_trip(v: u32, k: nat, tail: Seq<bool>)
    ensures
        rice_code(rice_encoding(v as nat, k) + tail, k) == Some(
            (v as nat, rice_encoding(v as nat, k).len()),
        ),
{
    let p = pow2(k);
    let q = v as nat / p;
    let s = rice_encoding(v as nat, k) + tail;
    if q >= ESCAPE_RUN || k >= 32 {
        let low = low_bits(v as nat, 32);
        lemma_low_bits(v as nat, 32);
        assert(s =~= zeros(ESCAPE_RUN as nat) + (low + tail));
        lemma_zero_run(ESCAPE_RUN as nat, low + tail);
        assert(s.subrange(ESCAPE_RUN as int, ESCAPE_RUN + 32) =~= low);
        lemma2_to64();
        lemma_small_mod(v as nat, 0x1_0000_0000);
    } else {
        lemma_small_pow(k);
        let low = low_bits(v as nat, k);
        lemma_low_bits(v as nat, k);
        let t = seq![true] + low + tail;
        assert(s =~= zeros(q) + t);
        lemma_zero_run(q, t);
        assert(zero_run(t) == 0);
        assert(s.subrange(q as int + 1, (q + 1 + k) as int) =~= low);
        lemma_fundamental_div_mod(v as int, p as int);
        assert(q * p == p * q) by (nonlinear_arith);
        lemma_mod_bound(v as int, p as int);
        lemma_small_mod(q * p, 0x1_0000_0000);
    }
}

} // verus!

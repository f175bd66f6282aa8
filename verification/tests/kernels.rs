//! The numeric kernels, run on plain `f32` lanes.

use npearl::blob::{QuantizedNet, Weight, MAGIC};
use npearl::cube::{CubeSample, F16Storage, F32Storage, LookupCube};
use npearl::fluor::{
    FluorProfile, DEN_FLOOR, EMISSION_HI, EMISSION_LO, EXCITATION_HI, EXCITATION_LO, NORM_FLOOR, Q, SKEW_BLUE,
    SKEW_LE0, SKEW_RAMP, SKEW_SPAN,
};
use npearl::formula::{Lanes, NnBackend, NnVector, Scalar};
use npearl::ieee::f16_to_f32;
use npearl::layer::{matvec_act, MINUS_QUARTER, THREE_QUARTERS};
use npearl::net::{xyz_to_lab_e, color_lab, LAB_EPS, LAB_KAPPA, LAB_OFFSET, LAB_SLOPE};
use npearl::params::{bound_outputs, RES_X_MAX, TAIL_GAIN, U_INTERCEPT, U_SLOPE};
use npearl::{DeployNet, UpliftParams};

/// One number.
#[derive(Clone, Copy, Debug, PartialEq)]
struct F(f32);

/// A vector of `L` numbers. `FAST` says whether it has a fast inverse root.
#[derive(Clone, Copy, Debug, PartialEq)]
struct X<const L: usize, const FAST: bool>([f32; L]);

fn cheb(c: &[F; 7], x: f32) -> f32 {
    let mut t0 = 1.0;
    let mut t1 = x;
    let mut sum = c[0].0 + c[1].0 * x;
    for k in 2..7 {
        let t2 = 2.0 * x * t1 - t0;
        sum += c[k].0 * t2;
        t0 = t1;
        t1 = t2;
    }
    sum
}

impl<const L: usize, const FAST: bool> X<L, FAST> {
    fn un(self, f: fn(f32) -> f32) -> Self {
        X(self.0.map(f))
    }

    fn bin(self, b: Self, f: fn(f32, f32) -> f32) -> Self {
        let mut r = self;
        for i in 0..L {
            r.0[i] = f(self.0[i], b.0[i]);
        }
        r
    }

    fn tri(self, b: Self, c: Self, f: fn(f32, f32, f32) -> f32) -> Self {
        let mut r = self;
        for i in 0..L {
            r.0[i] = f(self.0[i], b.0[i], c.0[i]);
        }
        r
    }

    fn rel(self, b: Self, f: fn(&f32, &f32) -> bool) -> [bool; L] {
        let mut r = [false; L];
        for i in 0..L {
            r[i] = f(&self.0[i], &b.0[i]);
        }
        r
    }
}

impl<const L: usize, const FAST: bool> NnVector for X<L, FAST> {
    type Element = F;
    type Mask = [bool; L];

    fn has_approx_rsqrt() -> bool {
        FAST
    }
    fn splat(x: F) -> Self {
        X([x.0; L])
    }
    fn from_bits(bits: u32) -> Self {
        X([f32::from_bits(bits); L])
    }
    fn from_int(i: i64) -> Self {
        X([i as f32; L])
    }
    fn add(self, b: Self) -> Self {
        self.bin(b, |x, y| x + y)
    }
    fn sub(self, b: Self) -> Self {
        self.bin(b, |x, y| x - y)
    }
    fn mul(self, b: Self) -> Self {
        self.bin(b, |x, y| x * y)
    }
    fn div(self, b: Self) -> Self {
        self.bin(b, |x, y| x / y)
    }
    fn max(self, b: Self) -> Self {
        self.bin(b, f32::max)
    }
    fn mul_adde(self, b: Self, c: Self) -> Self {
        self.tri(b, c, |x, y, z| x * y + z)
    }
    fn mul_sube(self, b: Self, c: Self) -> Self {
        self.tri(b, c, |x, y, z| x * y - z)
    }
    fn nmul_adde(self, b: Self, c: Self) -> Self {
        self.tri(b, c, |x, y, z| z - x * y)
    }
    fn mix(self, a: Self, b: Self) -> Self {
        self.tri(a, b, |t, x, y| x * (1.0 - t) + y * t)
    }
    fn clamp(self, lo: Self, hi: Self) -> Self {
        self.tri(lo, hi, f32::clamp)
    }
    fn neg(self) -> Self {
        self.un(|x| -x)
    }
    fn sqrt(self) -> Self {
        self.un(f32::sqrt)
    }
    fn rsqrt(self) -> Self {
        // twelve bits, as a fast approximation has
        self.un(|x| f32::from_bits((1.0 / x.sqrt()).to_bits() & 0xFFFF_F000))
    }
    fn inverse_sqrt(self) -> Self {
        self.un(|x| 1.0 / x.sqrt())
    }
    fn reciprocal(self) -> Self {
        self.un(|x| 1.0 / x)
    }
    fn cbrt(self) -> Self {
        self.un(f32::cbrt)
    }
    fn tan(self) -> Self {
        self.un(f32::tan)
    }
    fn atan(self) -> Self {
        self.un(f32::atan)
    }
    fn chebyshev(self, coeffs: &[F; 7]) -> Self {
        X(self.0.map(|x| cheb(coeffs, x)))
    }
    fn lanes_gt(self, b: Self) -> [bool; L] {
        self.rel(b, f32::gt)
    }
    fn lanes_ge(self, b: Self) -> [bool; L] {
        self.rel(b, f32::ge)
    }
    fn lanes_lt(self, b: Self) -> [bool; L] {
        self.rel(b, f32::lt)
    }
    fn lanes_le(self, b: Self) -> [bool; L] {
        self.rel(b, f32::le)
    }
    fn mask_and(a: [bool; L], b: [bool; L]) -> [bool; L] {
        let mut r = a;
        for i in 0..L {
            r[i] = a[i] && b[i];
        }
        r
    }
    fn select(m: [bool; L], a: Self, b: Self) -> Self {
        let mut r = b;
        for i in 0..L {
            if m[i] {
                r.0[i] = a.0[i];
            }
        }
        r
    }
    fn zz(self, m: [bool; L]) -> Self {
        Self::select(m, self, X([0.0; L]))
    }
}

impl<const L: usize, const FAST: bool> Lanes<L> for X<L, FAST> {
    fn new(lanes: [F; L]) -> Self {
        X(lanes.map(|x| x.0))
    }
    fn into_array(self) -> [F; L] {
        self.0.map(F)
    }
}

impl NnVector for F {
    type Element = F;
    type Mask = bool;

    fn has_approx_rsqrt() -> bool {
        false
    }
    fn splat(x: F) -> Self {
        x
    }
    fn from_bits(bits: u32) -> Self {
        F(f32::from_bits(bits))
    }
    fn from_int(i: i64) -> Self {
        F(i as f32)
    }
    fn add(self, b: Self) -> Self {
        F(self.0 + b.0)
    }
    fn sub(self, b: Self) -> Self {
        F(self.0 - b.0)
    }
    fn mul(self, b: Self) -> Self {
        F(self.0 * b.0)
    }
    fn div(self, b: Self) -> Self {
        F(self.0 / b.0)
    }
    fn max(self, b: Self) -> Self {
        F(self.0.max(b.0))
    }
    fn mul_adde(self, b: Self, c: Self) -> Self {
        F(self.0 * b.0 + c.0)
    }
    fn mul_sube(self, b: Self, c: Self) -> Self {
        F(self.0 * b.0 - c.0)
    }
    fn nmul_adde(self, b: Self, c: Self) -> Self {
        F(c.0 - self.0 * b.0)
    }
    fn mix(self, a: Self, b: Self) -> Self {
        F(a.0 * (1.0 - self.0) + b.0 * self.0)
    }
    fn clamp(self, lo: Self, hi: Self) -> Self {
        F(self.0.clamp(lo.0, hi.0))
    }
    fn neg(self) -> Self {
        F(-self.0)
    }
    fn sqrt(self) -> Self {
        F(self.0.sqrt())
    }
    fn rsqrt(self) -> Self {
        F(1.0 / self.0.sqrt())
    }
    fn inverse_sqrt(self) -> Self {
        F(1.0 / self.0.sqrt())
    }
    fn reciprocal(self) -> Self {
        F(1.0 / self.0)
    }
    fn cbrt(self) -> Self {
        F(self.0.cbrt())
    }
    fn tan(self) -> Self {
        F(self.0.tan())
    }
    fn atan(self) -> Self {
        F(self.0.atan())
    }
    fn chebyshev(self, coeffs: &[F; 7]) -> Self {
        F(cheb(coeffs, self.0))
    }
    fn lanes_gt(self, b: Self) -> bool {
        self.0 > b.0
    }
    fn lanes_ge(self, b: Self) -> bool {
        self.0 >= b.0
    }
    fn lanes_lt(self, b: Self) -> bool {
        self.0 < b.0
    }
    fn lanes_le(self, b: Self) -> bool {
        self.0 <= b.0
    }
    fn mask_and(a: bool, b: bool) -> bool {
        a && b
    }
    fn select(m: bool, a: Self, b: Self) -> Self {
        if m {
            a
        } else {
            b
        }
    }
    fn zz(self, m: bool) -> Self {
        if m {
            self
        } else {
            F(0.0)
        }
    }
}

impl Scalar for F {
    fn to_index(self) -> usize {
        self.0 as usize
    }
}

/// Round to a half, to nearest, for numbers in the normal range of halves.
fn to_half(x: f32) -> u16 {
    let mut best = 0u16;
    let mut err = f32::INFINITY;
    for h in 0..=0xfbffu16 {
        if (h >> 10) & 0x1f == 0x1f {
            continue;
        }
        let e = (f32::from_bits(f16_to_f32(h)) - x).abs();
        if e < err {
            err = e;
            best = h;
        }
    }
    best
}

struct Exact;

struct Fast;

impl NnBackend for Exact {
    type F32 = F;
    type F32x4 = X<4, false>;
    type F32x8 = X<8, false>;
    type F32x16 = X<16, false>;
    type U16x16 = [u16; 16];

    fn pack_half(v: X<16, false>) -> [u16; 16] {
        v.0.map(to_half)
    }
    fn unpack_half(p: [u16; 16]) -> X<16, false> {
        X(p.map(|h| f32::from_bits(f16_to_f32(h))))
    }
}

impl NnBackend for Fast {
    type F32 = F;
    type F32x4 = X<4, true>;
    type F32x8 = X<8, true>;
    type F32x16 = X<16, true>;
    type U16x16 = [u16; 16];

    fn pack_half(v: X<16, true>) -> [u16; 16] {
        v.0.map(to_half)
    }
    fn unpack_half(p: [u16; 16]) -> X<16, true> {
        X(p.map(|h| f32::from_bits(f16_to_f32(h))))
    }
}

fn close(a: f32, b: f64, tol: f64) {
    assert!((a as f64 - b).abs() <= tol, "{a} is not within {tol} of {b}");
}

// ----------------------------------------------------------------------------
// Constants
// ----------------------------------------------------------------------------

#[test]
fn reconstruction_constants() {
    let slope = 2.0f32 / (800.0 - 360.0);
    assert_eq!(U_SLOPE, slope.to_bits());
    assert_eq!(U_INTERCEPT, (-1.0 - 360.0 * slope).to_bits());
    assert_eq!(RES_X_MAX, 1.2f32.to_bits());
    assert_eq!(TAIL_GAIN, (0.5f32 * (1.0 - 2.0 * 1.0e-4)).to_bits());
}

#[test]
fn lab_constants() {
    let eps = (6.0f32 / 29.0) * (6.0 / 29.0) * (6.0 / 29.0);
    let kappa = (29.0f32 / 3.0) * (29.0 / 3.0) * (29.0 / 3.0);
    assert_eq!(LAB_EPS, eps.to_bits());
    assert_eq!(LAB_KAPPA, kappa.to_bits());
    assert_eq!(LAB_SLOPE, (kappa / 116.0).to_bits());
    assert_eq!(LAB_OFFSET, (16.0f32 / 116.0).to_bits());
    assert_eq!(MINUS_QUARTER, (-0.25f32).to_bits());
    assert_eq!(THREE_QUARTERS, 0.75f32.to_bits());
}

#[test]
fn fluorescence_constants() {
    assert_eq!(Q, 0.96f32.to_bits());
    assert_eq!(DEN_FLOOR, 1.0e-3f32.to_bits());
    assert_eq!(NORM_FLOOR, 1.0e-12f32.to_bits());
    assert_eq!(SKEW_BLUE, 1.2f32.to_bits());
    assert_eq!(SKEW_LE0, 450.0f32.to_bits());
    assert_eq!(SKEW_RAMP, ((1.4f32 - 1.2) / (500.0 - 450.0)).to_bits());
    assert_eq!(SKEW_SPAN, (1.4f32 - 1.2).to_bits());
    assert_eq!(EMISSION_LO, 380.0f32.to_bits());
    assert_eq!(EMISSION_HI, 780.0f32.to_bits());
    assert_eq!(EXCITATION_LO, 340.0f32.to_bits());
    assert_eq!(EXCITATION_HI, 780.0f32.to_bits());
}

// ----------------------------------------------------------------------------
// Reconstruction
// ----------------------------------------------------------------------------

fn params(o: [f32; 16]) -> UpliftParams<F> {
    UpliftParams::from_outputs::<X<8, false>>(&o.map(F))
}

#[test]
fn zero_outputs_are_midpoints() {
    let p = params([0.0; 16]);
    assert_eq!(p.res_x, F(0.0));
    assert_eq!(p.res_yy, F(f32::from_bits(0x3F02_8F5C) * f32::from_bits(0x3F02_8F5C)));
    close(p.res_yy.0, 0.51 * 0.51, 1e-6);
    assert_eq!(p.res_a, F(0.0));
    assert_eq!(p.res_b, F(0.0));
    assert_eq!(p.tail_c0, F(0.25));
    close(p.tail_c1.0, 0.25 * (1.0 - 2.0e-4), 1e-7);
    assert_eq!(p.c, F(0.5));
    assert_eq!(p.lambda_e, F(550.0));
    assert_eq!(p.s, F(77.5));
    close(p.r.0, 0.95, 1e-6);
}

#[test]
fn bounded_outputs_follow_their_powers() {
    let mut o = [F(0.0); 16];
    for i in 0..8 {
        o[8 + i] = F(0.8);
    }
    let b = bound_outputs::<F, X<8, false>>(&o);
    let soft = 0.8 / (1.0f64 + 0.64).sqrt();
    let sharp = 0.8 / (1.0f64 + 0.64 * 0.64).powf(0.25);
    close(b[0].0, 0.51 + 0.49 * soft, 1e-5);
    close(b[1].0, 12.0 * soft, 1e-5);
    close(b[2].0, 12.0 * soft, 1e-5);
    close(b[3].0, 0.5 + 0.5 * sharp, 1e-5);
    close(b[4].0, 0.5 + 0.5 * sharp, 1e-5);
    close(b[5].0, 550.0 + 150.0 * sharp, 1e-3);
    close(b[6].0, 77.5 + 72.5 * sharp, 1e-3);
    close(b[7].0, 0.95 + 0.8 * sharp, 1e-5);
}

#[test]
fn extreme_outputs_stay_in_range() {
    for x in [-1.0e4f32, -30.0, 30.0, 1.0e4] {
        let b = bound_outputs::<F, X<8, false>>(&[F(x); 16]);
        assert!(b[0].0 >= 0.0199 && b[0].0 <= 1.0001);
        assert!(b[1].0.abs() <= 12.0001);
        assert!(b[3].0 >= -1e-6 && b[3].0 <= 1.0001);
        assert!(b[4].0 >= -1e-6 && b[4].0 <= 1.0001);
        assert!(b[5].0 >= 399.99 && b[5].0 <= 700.01);
        assert!(b[6].0 >= 4.99 && b[6].0 <= 150.01);
        assert!(b[7].0 >= 0.1499 && b[7].0 <= 1.7501);
        let p = params([x; 16]);
        assert!(p.res_x.0.abs() <= 1.2001);
    }
}

#[test]
fn bounded_outputs_never_decrease() {
    let mut last = bound_outputs::<F, X<8, false>>(&[F(-6.0); 16]);
    let mut x = -5.75f32;
    while x <= 6.0 {
        let b = bound_outputs::<F, X<8, false>>(&[F(x); 16]);
        for l in 0..8 {
            assert!(b[l].0 > last[l].0 - 1e-4, "lane {l} at {x}");
        }
        last = b;
        x += 0.25;
    }
    // a bounded output depends on its own raw output alone
    let mut o = sample_outputs().map(F);
    let a = bound_outputs::<F, X<8, false>>(&o);
    o[12] = F(2.0);
    let b = bound_outputs::<F, X<8, false>>(&o);
    for l in 0..8 {
        assert_eq!(a[l] == b[l], l != 4);
    }
    assert!(b[4].0 > a[4].0);
}

#[test]
fn bounded_outputs_tend_to_their_limits() {
    let lows = [0.02, -12.0, -12.0, 0.0, 0.0, 400.0, 5.0, 0.15];
    let highs = [1.0, 12.0, 12.0, 1.0, 1.0, 700.0, 150.0, 1.75];
    for x in [9.0f32, 1.0e4, 1.0e9] {
        let up = bound_outputs::<F, X<8, false>>(&[F(x); 16]);
        let down = bound_outputs::<F, X<8, false>>(&[F(-x); 16]);
        for l in 0..8 {
            let half = 0.5 * (highs[l] - lows[l]);
            let near = half / (1.0 + x as f64) + 1e-6 * highs[l];
            close(up[l].0, highs[l], near);
            close(down[l].0, lows[l], near);
        }
    }
}

#[test]
fn outputs_beyond_the_sixteenth_are_not_read() {
    let mut o = sample_outputs().map(F).to_vec();
    let p = UpliftParams::from_outputs::<X<8, false>>(&o);
    let b = bound_outputs::<F, X<8, false>>(&o);
    o.push(F(1.0e30));
    o.push(F(f32::NAN));
    same(&UpliftParams::from_outputs::<X<8, false>>(&o), &p);
    assert_eq!(bound_outputs::<F, X<8, false>>(&o), b);
}

#[test]
fn params_follow_the_bounded_outputs() {
    let o = sample_outputs();
    let p = params(o);
    let b = bound_outputs::<F, X<8, false>>(&o.map(F));
    let y = b[0].0;
    assert_eq!(p.res_yy, F(y * y));
    assert_eq!(p.res_a, F(b[1].0 * (y * y)));
    assert_eq!(p.res_b, F(b[2].0 * y));
    assert_eq!(p.tail_c0, F(b[3].0 * 0.5));
    assert_eq!([p.c, p.lambda_e, p.s, p.r], [b[4], b[5], b[6], b[7]]);
    assert!(p.tail_c0.0 >= 0.0 && p.tail_c0.0 <= 0.5);
    assert!(p.res_a.0.abs() <= 12.0 * p.res_yy.0);
    assert!(p.res_b.0 * p.res_b.0 <= 144.0 * p.res_yy.0);
}

fn reflectance_reference(o: &[f32; 16], lambda: f64) -> f64 {
    let soft = |x: f64| x / (1.0 + x * x).sqrt();
    let sharp = |x: f64| x / (1.0 + x * x * x * x).powf(0.25);
    let x = |i: usize| o[i] as f64;
    let u = 2.0 * (lambda - 360.0) / 440.0 - 1.0;
    let mut p = 0.0;
    for k in 0..7 {
        p += x(k) * (k as f64 * u.acos()).cos();
    }
    let y = 0.51 + 0.49 * soft(x(8));
    let d = u - 1.2 * soft(x(7));
    p += (12.0 * soft(x(9)) * y * y + 12.0 * soft(x(10)) * y * d) / (d * d + y * y);
    let scale = 0.5 + 0.5 * sharp(x(11));
    scale * (0.5 + 0.5 * (1.0 - 2.0e-4) * sharp(p))
}

fn sample_outputs() -> [f32; 16] {
    [0.3, -0.8, 0.5, 0.2, -0.1, 0.05, -0.3, 0.4, -0.6, 0.2, -0.15, 0.7, 0.3, -0.2, 0.1, 0.6]
}

#[test]
fn reflectance_matches_its_definition() {
    let o = sample_outputs();
    let p = params(o);
    for l in [360.0f32, 400.0, 455.5, 580.0, 700.0, 799.0] {
        let r = p.reflectance(X::<4, false>([l, l + 1.0, l, l]));
        close(r.0[0], reflectance_reference(&o, l as f64), 2e-5);
        if l < 799.0 {
            close(r.0[1], reflectance_reference(&o, l as f64 + 1.0), 2e-5);
        }
        assert_eq!(r.0[0], r.0[2]);
    }
}

#[test]
fn reflectance_of_a_flat_logit() {
    let p = params([0.0; 16]);
    assert_eq!(p.reflectance(F(500.0)), F(0.25));
    let mut o = [0.0; 16];
    o[0] = 1.0;
    close(params(o).reflectance(F(500.0)).0, 0.25 + 0.25 * (1.0 - 2.0e-4) * 2f64.powf(-0.25), 1e-6);
}

#[test]
fn reflectance_is_bounded() {
    let mut o = sample_outputs();
    for k in [1.0f32, 10.0, 100.0, -50.0] {
        for i in 0..11 {
            o[i] = sample_outputs()[i] * k;
        }
        let p = params(o);
        let mut l = 360.0;
        while l <= 800.0 {
            let r = p.reflectance(F(l)).0;
            let scale = 2.0 * p.tail_c0.0;
            assert!(r >= 0.9e-4 * scale && r <= (1.0 - 0.9e-4) * scale);
            l += 4.0;
        }
    }
}

#[test]
fn dimming_scales_reflectance() {
    let p = params(sample_outputs());
    let mut dim = p;
    dim.tail_c0 = F(0.25 * p.tail_c0.0);
    dim.tail_c1 = F(0.25 * p.tail_c1.0);
    for l in [380.0, 500.0, 610.0, 720.0] {
        assert_eq!(dim.reflectance(F(l)).0, 0.25 * p.reflectance(F(l)).0);
    }
}

// ----------------------------------------------------------------------------
// Fluorescence
// ----------------------------------------------------------------------------

fn profile() -> FluorProfile<F> {
    FluorProfile::new::<X<4, false>>(F(0.6), F(560.0), F(60.0), F(0.9))
}

#[test]
fn profile_quantities() {
    let p = profile();
    let gamma = 0.5 * 560.0 * 60.0 / (2.0 * 560.0 - 60.0);
    assert_eq!(p.c, F(0.6));
    assert_eq!(p.lambda_e, F(560.0));
    assert_eq!(p.mu_a, F(500.0));
    close(p.gamma_a.0, gamma, 1e-4);
    close(p.inv_gamma_a.0, 1.0 / gamma, 1e-6);
    close(p.qc.0, 0.96 * 0.6, 1e-6);
    close(p.gamma_b.0, gamma * 0.9, 1e-4);
    close(p.gamma_r.0, gamma * 0.9 * 1.4, 1e-4);
    let blo = ((500.0 - 560.0) / (gamma * 0.9)).atan();
    let rhi = ((780.0 - 560.0) / (gamma * 0.9 * 1.4)).atan();
    close(p.emis_a_blo.0, blo, 1e-5);
    close(p.emis_a_rhi.0, rhi, 1e-5);
    let blue = -gamma * 0.9 * blo;
    let red = gamma * 0.9 * 1.4 * rhi;
    close(p.e_norm_rcp.0, 1.0 / (blue + red), 1e-6);
    close(p.emis_blue_frac.0, blue / (blue + red), 1e-5);
    let alo = ((340.0 - 500.0) / gamma).atan();
    let ahi = ((780.0 - 500.0) / gamma).atan();
    close(p.excite_a_lo.0, alo, 1e-5);
    close(p.excite_da.0, ahi - alo, 1e-5);
    close(p.excite_integral().0, gamma * (ahi - alo), 1e-3);
    close(p.excite_pdf_norm().0, 1.0 / (gamma * (ahi - alo)), 1e-6);
}

#[test]
fn half_width_floor() {
    // a small Stokes shift gives a bandwidth below the floor
    let p = FluorProfile::new::<X<4, false>>(F(1.0), F(500.0), F(5.0), F(1.0));
    assert_eq!(p.gamma_a, F(2.0));
}

#[test]
fn red_skew_ramp() {
    for (le, skew) in [(400.0f32, 1.2), (450.0, 1.2), (475.0, 1.3), (500.0, 1.4), (650.0, 1.4)] {
        let p = FluorProfile::new::<X<4, false>>(F(1.0), F(le), F(50.0), F(1.0));
        close(p.gamma_r.0 / p.gamma_b.0, skew, 1e-5);
    }
}

#[test]
fn profile_from_params() {
    let u = params(sample_outputs());
    let a = FluorProfile::from_uplift::<X<4, false>>(&u);
    let b = FluorProfile::new::<X<4, false>>(u.c, u.lambda_e, u.s, u.r);
    assert_eq!(a.mu_a, b.mu_a);
    assert_eq!(a.gamma_r, b.gamma_r);
    assert_eq!(a.e_norm_rcp, b.e_norm_rcp);
    assert_eq!(a.excite_rcp, b.excite_rcp);
}

#[test]
fn absorption_is_a_lorentzian() {
    let p = profile();
    assert_eq!(p.absorption(F(500.0)), F(1.0));
    let g = p.gamma_a.0;
    close(p.absorption(F(500.0 + g)).0, 0.5, 1e-5);
    close(p.absorption(F(500.0 - g)).0, 0.5, 1e-5);
    close(p.absorption(F(500.0 + 3.0 * g)).0, 0.1, 1e-5);
    assert!(p.absorption(F(300.0)).0 > 0.0);
}

#[test]
fn emission_flanks_and_cut_off() {
    let p = profile();
    let peak = p.e_norm_rcp.0;
    assert_eq!(p.emission(F(560.0)), F(peak));
    close(p.emission(F(560.0 + p.gamma_r.0)).0, 0.5 * peak as f64, 1e-6);
    close(p.emission(F(560.0 - p.gamma_b.0)).0, 0.5 * peak as f64, 1e-6);
    assert_eq!(p.emission(F(500.0)), F(0.0));
    assert_eq!(p.emission(F(450.0)), F(0.0));
    assert!(p.emission(F(500.5)).0 > 0.0);
    let r = p.emission(X::<4, false>([560.0, 499.0, 570.0, 600.0]));
    assert_eq!(r.0[0], peak);
    assert_eq!(r.0[1], 0.0);
}

#[test]
fn emission_integrates_to_one() {
    let p = profile();
    let mut sum = 0.0f64;
    let mut l = 380.05f32;
    while l < 780.0 {
        sum += p.emission(F(l)).0 as f64 * 0.1;
        l += 0.1;
    }
    assert!((sum - 1.0).abs() < 5e-3, "{sum}");
}

#[test]
fn elastic_part_and_kernel() {
    let p = profile();
    for l in [400.0, 500.0, 530.0, 700.0] {
        let a = p.absorption(F(l)).0;
        close(p.elastic_attenuation(F(l)).0, 1.0 - 0.6 * a as f64, 1e-6);
        let k = p.reradiation(F(l), F(570.0)).0;
        close(k, p.qc.0 as f64 * a as f64 * p.emission(F(570.0)).0 as f64, 1e-7);
        // energy: elastic part of a full reflectance plus what is re-emitted
        assert!((1.0 - 0.6 * a) + p.qc.0 * a <= 1.0);
    }
}

#[test]
fn non_fluorescent_material() {
    let p = FluorProfile::new::<X<4, false>>(F(0.0), F(560.0), F(60.0), F(0.9));
    assert_eq!(p.elastic_attenuation(F(500.0)), F(1.0));
    assert_eq!(p.reradiation(F(500.0), F(570.0)), F(0.0));
}

#[test]
fn excitation_sampling() {
    let p = profile();
    let (l, _) = p.sample_excitation(F(0.0));
    close(l.0, 340.0, 0.05);
    let (l, _) = p.sample_excitation(F(0.999_999));
    close(l.0, 780.0, 0.2);
    for i in 0..20 {
        let u = (i as f32 + 0.5) / 20.0;
        let (l, pdf) = p.sample_excitation(F(u));
        assert!(l.0 >= 339.9 && l.0 <= 780.1);
        close(pdf.0, p.excite_pdf(l).0 as f64, 2e-4 * pdf.0 as f64 + 1e-8);
    }
}

#[test]
fn excitation_density_band() {
    let p = profile();
    assert_eq!(p.excite_pdf(F(339.0)), F(0.0));
    assert_eq!(p.excite_pdf(F(781.0)), F(0.0));
    assert!(p.excite_pdf(F(340.0)).0 > 0.0);
    assert!(p.excite_pdf(F(780.0)).0 > 0.0);
    close(p.excite_pdf(F(500.0)).0, 1.0 / p.excite_integral().0 as f64, 1e-6);
}

#[test]
fn emission_sampling() {
    let p = profile();
    let (l, _) = p.sample_emission(F(0.0));
    close(l.0, 500.0, 0.01);
    let (l, _) = p.sample_emission(F(p.emis_blue_frac.0));
    close(l.0, 560.0, 0.01);
    let (l, _) = p.sample_emission(F(0.999_999));
    close(l.0, 780.0, 0.2);
    for i in 0..20 {
        let u = (i as f32 + 0.5) / 20.0;
        let (l, pdf) = p.sample_emission(F(u));
        assert_eq!(pdf, p.emission(l));
        assert_eq!(u < p.emis_blue_frac.0, l.0 < 560.0);
    }
}

#[test]
fn profiles_are_in_order() {
    for (le, s, r) in [(400.0f32, 5.0f32, 0.15f32), (400.0, 150.0, 1.75), (560.0, 60.0, 0.9), (700.0, 5.0, 0.15), (700.0, 150.0, 1.75)] {
        let p = FluorProfile::new::<X<4, false>>(F(0.5), F(le), F(s), F(r));
        assert!(p.gamma_a.0 >= 2.0);
        assert!(p.gamma_b.0 > 0.0 && p.gamma_b.0 < p.gamma_r.0);
        assert!(p.emis_a_blo.0 < 0.0 && p.emis_a_rhi.0 > 0.0);
        assert!(p.emis_blue_frac.0 > 0.0 && p.emis_blue_frac.0 < 1.0);
        assert!(p.excite_da.0 > 0.0 && p.excite_da.0 < std::f32::consts::PI);
        close(p.excite_integral().0 * p.excite_pdf_norm().0, 1.0, 1e-6);
        close(p.inv_gamma_a.0 * p.gamma_a.0, 1.0, 1e-6);
        close(p.inv_gamma_b.0 * p.gamma_b.0, 1.0, 1e-6);
        close(p.inv_gamma_r.0 * p.gamma_r.0, 1.0, 1e-6);
        let area = p.gamma_r.0 * p.emis_a_rhi.0 - p.gamma_b.0 * p.emis_a_blo.0;
        close(p.e_norm_rcp.0 * area, 1.0, 1e-5);
    }
}

#[test]
fn excitation_sampler_inverts_the_distribution() {
    let p = profile();
    let (l, _) = p.sample_excitation(F(1.0));
    close(l.0, 780.0, 0.2);
    for i in 0..=16 {
        let u = i as f64 / 16.0;
        let (l, _) = p.sample_excitation(F(u as f32));
        let g = p.gamma_a.0 as f64;
        let angle = ((l.0 as f64 - p.mu_a.0 as f64) / g).atan();
        let below = g * (angle - p.excite_a_lo.0 as f64);
        close(below as f32, u * p.excite_integral().0 as f64, 1e-3);
    }
}

#[test]
fn emission_sampler_inverts_the_distribution() {
    // the second fluorophore is cut off by the emission band, not by its absorption centre
    for (le, s, start) in [(560.0f32, 60.0f32, 500.0), (410.0, 100.0, 380.0)] {
        let p = FluorProfile::new::<X<4, false>>(F(0.6), F(le), F(s), F(0.9));
        close(p.sample_emission(F(0.0)).0 .0, start, 0.01);
        close(p.sample_emission(F(1.0)).0 .0, 780.0, 0.2);
        let (gb, gr) = (p.gamma_b.0 as f64, p.gamma_r.0 as f64);
        let blue = -gb * p.emis_a_blo.0 as f64;
        let area = blue + gr * p.emis_a_rhi.0 as f64;
        for i in 0..=16 {
            let u = i as f64 / 16.0;
            let d = p.sample_emission(F(u as f32)).0 .0 as f64 - le as f64;
            let below = if d < 0.0 {
                blue + gb * (d / gb).atan()
            } else {
                blue + gr * (d / gr).atan()
            };
            close(below as f32, u * area, 1e-3);
        }
    }
}

#[test]
fn absorption_integrates_to_its_closed_form() {
    let p = profile();
    let (mut absorbed, mut density) = (0.0f64, 0.0f64);
    let n = 44_000;
    for i in 0..n {
        let l = 340.0 + (i as f64 + 0.5) * 0.01;
        absorbed += p.absorption(F(l as f32)).0 as f64 * 0.01;
        density += p.excite_pdf(F(l as f32)).0 as f64 * 0.01;
    }
    close(absorbed as f32, p.excite_integral().0 as f64, 0.01);
    close(density as f32, 1.0, 1e-3);
}

#[test]
fn emission_is_positive_above_the_absorption_centre() {
    let p = profile();
    for l in [500.1f32, 510.0, 560.0, 700.0, 780.0, 2000.0] {
        assert!(p.emission(F(l)).0 > 0.0);
    }
    assert_eq!(p.emission(F(500.0)), F(0.0));
}

#[test]
fn larger_numbers_draw_longer_wavelengths() {
    let p = profile();
    let u = X::<4, false>([0.1, 0.35, 0.6, 0.95]);
    let (e, _) = p.sample_excitation(u);
    let (o, _) = p.sample_emission(u);
    for k in 1..4 {
        assert!(e.0[k - 1] < e.0[k]);
        assert!(o.0[k - 1] < o.0[k]);
    }
    let mut last = (F(0.0), F(0.0));
    for i in 0..64 {
        let u = F(i as f32 / 64.0);
        let next = (p.sample_excitation(u).0, p.sample_emission(u).0);
        assert!(last.0 .0 < next.0 .0 && last.1 .0 < next.1 .0);
        last = next;
    }
}

#[test]
fn red_skew_depends_on_the_peak_alone() {
    let mut last = 0.0;
    for le in [400.0f32, 455.0, 470.0, 490.0, 650.0] {
        let a = FluorProfile::new::<X<4, false>>(F(1.0), F(le), F(50.0), F(1.0));
        let b = FluorProfile::new::<X<4, false>>(F(0.2), F(le), F(140.0), F(0.3));
        let skew = a.gamma_r.0 / a.gamma_b.0;
        close(b.gamma_r.0 / b.gamma_b.0, skew as f64, 1e-6);
        assert!(skew >= last);
        last = skew;
    }
}

// ----------------------------------------------------------------------------
// Lookup cube
// ----------------------------------------------------------------------------

/// Node outputs that depend on the coordinate.
fn node(lab: [F; 3]) -> [F; 16] {
    let mut o = sample_outputs().map(F);
    o[0] = F(lab[0].0 / 100.0);
    o[1] = F(lab[1].0 / 128.0);
    o[2] = F(lab[2].0 / 128.0);
    o[12] = F(lab[0].0 / 50.0 - 1.0);
    o[13] = F(lab[1].0 / 64.0);
    o
}

const LO: [F; 3] = [F(0.0), F(-128.0), F(-64.0)];
const HI: [F; 3] = [F(100.0), F(128.0), F(64.0)];

type Cube3 = LookupCube<Exact, F32Storage, 3>;
type Half3 = LookupCube<Exact, F16Storage, 3>;

fn same(a: &UpliftParams<F>, b: &UpliftParams<F>) {
    assert_eq!(a.coeffs, b.coeffs);
    assert_eq!(a.res_x, b.res_x);
    assert_eq!(a.tail_c1, b.tail_c1);
    assert_eq!(a.c, b.c);
    assert_eq!(a.lambda_e, b.lambda_e);
}

#[test]
fn bake_fills_row_major() {
    let cube = Cube3::bake(LO, HI, node);
    for ix in 0..3 {
        for iy in 0..3 {
            for iz in 0..3 {
                let lab = [F(50.0 * ix as f32), F(-128.0 + 128.0 * iy as f32), F(-64.0 + 64.0 * iz as f32)];
                let flat = (ix * 3 + iy) * 3 + iz;
                assert_eq!(cube.decode_raw(flat), node(lab));
                same(&cube.corner(flat), &UpliftParams::from_outputs::<X<8, false>>(&node(lab)));
            }
        }
    }
}

#[test]
fn half_storage_rounds_nodes() {
    let cube = Half3::bake(LO, HI, node);
    let got = cube.decode_raw(5);
    let want = node([F(0.0), F(0.0), F(64.0)]);
    for i in 0..16 {
        assert_eq!(got[i].0, f32::from_bits(f16_to_f32(to_half(want[i].0))));
    }
    // the number at this place is no half
    assert_ne!(got[8], want[8]);
}

#[test]
fn packed_nodes_give_the_same_cube() {
    let cube = Cube3::bake(LO, HI, node);
    let mut nodes = Vec::new();
    for flat in 0..27 {
        nodes.push(X(cube.decode_raw(flat).map(|x| x.0)));
    }
    let again = Cube3::from_packed(nodes, LO, HI);
    let lab = [F(33.0), F(20.0), F(-50.0)];
    let a = cube.sample(lab);
    let b = again.sample(lab);
    assert_eq!(a.f, b.f);
    assert_eq!(a.c, b.c);
    for k in 0..8 {
        same(&a.corners[k], &b.corners[k]);
    }
}

#[test]
fn lookup_at_a_node_is_the_node() {
    let cube = Cube3::bake(LO, HI, node);
    for lab in [[0.0f32, -128.0, -64.0], [50.0, 0.0, 0.0], [100.0, 128.0, 64.0], [0.0, 128.0, 0.0]] {
        let lab = lab.map(F);
        let s = cube.sample(lab);
        let p = UpliftParams::from_outputs::<X<8, false>>(&node(lab));
        assert_eq!(s.c, p.c);
        assert_eq!(s.lambda_e, p.lambda_e);
        assert_eq!(s.s, p.s);
        assert_eq!(s.r, p.r);
        close(s.reflectance(F(520.0)).0, p.reflectance(F(520.0)).0 as f64, 1e-7);
    }
}

#[test]
fn lookup_between_nodes() {
    let cube = Cube3::bake(LO, HI, node);
    // a quarter into the first cell of L, half into the second of a, three quarters into the first of b
    let s = cube.sample([F(12.5), F(64.0), F(-16.0)]);
    assert_eq!(s.f, [F(0.25), F(0.5), F(0.75)]);
    let at = |ix: f32, iy: f32, iz: f32| {
        UpliftParams::from_outputs::<X<8, false>>(&node([
            F(50.0 * ix),
            F(-128.0 + 128.0 * iy),
            F(-64.0 + 64.0 * iz),
        ]))
    };
    let mut c = 0.0f64;
    let mut rho = 0.0f64;
    for k in 0..8 {
        let (dx, dy, dz) = (k / 4, (k / 2) % 2, k % 2);
        let p = at(dx as f32, 1.0 + dy as f32, dz as f32);
        same(&s.corners[k], &p);
        let wx = if dx == 1 { 0.25 } else { 0.75 };
        let wz = if dz == 1 { 0.75 } else { 0.25 };
        c += wx * 0.5 * wz * p.c.0 as f64;
        rho += wx * 0.5 * wz * p.reflectance(F(610.0)).0 as f64;
    }
    close(s.c.0, c, 1e-6);
    close(s.reflectance(F(610.0)).0, rho, 1e-6);
}

#[test]
fn lookup_blends_reflectance_not_parameters() {
    let cube = Cube3::bake([F(0.0), F(0.0), F(0.0)], [F(2.0), F(2.0), F(2.0)], |lab: [F; 3]| {
        let mut o = [F(0.0); 16];
        o[0] = F(8.0 * lab[0].0);
        o
    });
    let s = cube.sample([F(0.5), F(0.0), F(0.0)]);
    let lo = params([0.0; 16]).reflectance(F(500.0)).0;
    let mut o = [0.0; 16];
    o[0] = 8.0;
    let hi = params(o).reflectance(F(500.0)).0;
    o[0] = 4.0;
    let parameter_blend = params(o).reflectance(F(500.0)).0;
    let got = s.reflectance(F(500.0)).0;
    close(got, 0.5 * (lo as f64 + hi as f64), 1e-6);
    assert!((got - parameter_blend).abs() > 0.05);
}

#[test]
fn lookup_outside_is_confined() {
    let cube = Cube3::bake(LO, HI, node);
    let out = cube.sample([F(-20.0), F(500.0), F(1.0e9)]);
    let edge = cube.sample([F(0.0), F(128.0), F(64.0)]);
    assert_eq!(out.f, edge.f);
    assert_eq!(out.f, [F(0.0), F(1.0), F(1.0)]);
    assert_eq!(out.c, edge.c);
    for k in 0..8 {
        same(&out.corners[k], &edge.corners[k]);
    }
}

#[test]
fn lookup_is_continuous_across_cells() {
    let cube = Cube3::bake(LO, HI, node);
    let before = cube.sample([F(49.9999), F(10.0), F(10.0)]);
    let after = cube.sample([F(50.0), F(10.0), F(10.0)]);
    assert_eq!(after.f[0], F(0.0));
    for k in 0..4 {
        same(&before.corners[4 + k], &after.corners[k]);
    }
    let a: CubeSample<F> = before;
    close(a.reflectance(F(550.0)).0, after.reflectance(F(550.0)).0 as f64, 1e-5);
    close(a.c.0, after.c.0 as f64, 1e-5);
}

#[test]
fn lookup_on_a_face_is_the_blend_of_either_cell() {
    let cube = Cube3::bake(LO, HI, node);
    // half way along a, on the face between the two cells of L
    let s = cube.sample([F(50.0), F(-64.0), F(-64.0)]);
    assert_eq!(s.f, [F(0.0), F(0.5), F(0.0)]);
    let lower = cube.corner(9);
    let upper = cube.corner(12);
    close(s.c.0, 0.5 * (lower.c.0 as f64 + upper.c.0 as f64), 1e-6);
    let rho = 0.5 * (lower.reflectance(F(600.0)).0 as f64 + upper.reflectance(F(600.0)).0 as f64);
    close(s.reflectance(F(600.0)).0, rho, 1e-6);
}

#[test]
fn lookups_conserve_energy() {
    let cube = Cube3::bake(LO, HI, |lab: [F; 3]| {
        let mut o = node(lab);
        o[0] = F(50.0);
        o[11] = F(50.0);
        o[12] = F(20.0);
        o
    });
    for lab in [[10.0f32, -100.0, 3.0], [99.0, 127.0, 64.0], [50.0, 0.0, 0.0]] {
        let s = cube.sample(lab.map(F));
        assert!(s.c.0 >= 0.0 && s.c.0 <= 1.0001);
        assert!(s.lambda_e.0 >= 400.0 && s.lambda_e.0 <= 700.0);
        assert!(s.s.0 >= 5.0 && s.s.0 <= 150.0);
        assert!(s.r.0 >= 0.15 && s.r.0 <= 1.7501);
        let p = FluorProfile::new::<X<4, false>>(s.c, s.lambda_e, s.s, s.r);
        for l in [380.0f32, 480.0, 520.0, 640.0] {
            let rho = s.reflectance(F(l)).0;
            assert!(rho >= 0.0 && rho <= 1.0);
            let sum = p.elastic_attenuation(F(l)).0 * rho + p.qc.0 * p.absorption(F(l)).0;
            assert!(sum <= 1.0 + 1e-5, "{sum}");
        }
    }
}

// ----------------------------------------------------------------------------
// Network
// ----------------------------------------------------------------------------

fn lab_reference(xyz: [f64; 3]) -> [f64; 3] {
    let f = |t: f64| {
        if t > (6.0f64 / 29.0).powi(3) {
            t.cbrt()
        } else {
            ((29.0f64 / 3.0).powi(3) * t + 16.0) / 116.0
        }
    };
    let (x, y, z) = (f(xyz[0]), f(xyz[1]), f(xyz[2]));
    [116.0 * y - 16.0, 500.0 * (x - y), 200.0 * (y - z)]
}

#[test]
fn white_is_neutral() {
    assert_eq!(DeployNet::<F>::white_lab_ab([F(1.0), F(1.0), F(1.0)]), [F(0.0), F(0.0)]);
    let lab = xyz_to_lab_e([F(1.0), F(1.0), F(1.0)]);
    assert_eq!(lab, [F(100.0), F(0.0), F(0.0)]);
    // whatever its brightness
    for t in [0.0f32, 0.005, 0.4, 3.0] {
        assert_eq!(DeployNet::<F>::white_lab_ab([F(t), F(t), F(t)]), [F(0.0), F(0.0)]);
    }
}

#[test]
fn lab_matches_its_definition() {
    for xyz in [[0.95047f32, 1.0, 1.08883], [0.2, 0.3, 0.1], [0.001, 0.002, 0.006], [0.0, 0.0, 0.0], [0.5, 0.004, 0.02]] {
        let want = lab_reference(xyz.map(|x| x as f64));
        let scalar = xyz_to_lab_e(xyz.map(F));
        let vector = color_lab::<F, X<4, false>>(xyz.map(F));
        for i in 0..3 {
            close(scalar[i].0, want[i], 2e-4);
            close(vector[i].0, want[i], 2e-4);
        }
        let ab = DeployNet::<F>::white_lab_ab(xyz.map(F));
        assert_eq!(ab, [scalar[1], scalar[2]]);
    }
}

const WIDTHS: [usize; 8] = [6, 32, 32, 32, 48, 64, 80, 16];

fn half(h: u16) -> f64 {
    f32::from_bits(f16_to_f32(h)) as f64
}

/// A network with small weights of both kinds.
fn sample_net() -> QuantizedNet {
    let mut rows = Vec::new();
    let mut biases = Vec::new();
    let mut seed = 12345u32;
    let mut next = || {
        seed = seed.wrapping_mul(1664525).wrapping_add(1013904223);
        seed >> 16
    };
    for l in 0..7 {
        for c in 0..WIDTHS[l + 1] {
            let mut row = Vec::new();
            for _ in 0..WIDTHS[l] {
                if c % 5 == 1 {
                    // halves of magnitude 2^-4 to 2^-2
                    row.push(Weight::Raw(0x2c00 + (next() % 0x800) as u16 + if next() % 2 == 0 { 0x8000 } else { 0 }));
                } else {
                    row.push(Weight::Steps((next() % 31) as i32 - 15, 0x2000));
                }
            }
            rows.push(row);
            biases.push(0x2c00 + (next() % 0x800) as u16);
        }
    }
    let mut floats = Vec::new();
    for x in [50.0f32, 1.0, -2.0, 0.5, -0.5, 900.0, 25.0, 20.0, 30.0, 5.0, 6.0, 800.0] {
        floats.push(x.to_bits());
    }
    QuantizedNet { rows, biases, floats }
}

fn weight(w: Weight) -> f64 {
    match w {
        Weight::Raw(h) => half(h),
        Weight::Steps(q, scale) => q as f64 * half(scale),
    }
}

fn forward_reference(net: &QuantizedNet, xyz: [f64; 3], white: [f64; 2]) -> Vec<f64> {
    let lab = lab_reference(xyz);
    let c2 = (lab[1] - white[0]).powi(2) + (lab[2] - white[1]).powi(2);
    let raw = [lab[0], lab[1], lab[2], white[0], white[1], c2];
    let mut x = Vec::new();
    for i in 0..6 {
        let mean = f32::from_bits(net.floats[i]) as f64;
        let std = f32::from_bits(net.floats[6 + i]) as f64;
        x.push((raw[i] - mean) / std);
    }
    let mut ch = 0;
    for l in 0..7 {
        let mut y = Vec::new();
        for _ in 0..WIDTHS[l + 1] {
            let mut sum = half(net.biases[ch]);
            for i in 0..WIDTHS[l] {
                sum += weight(net.rows[ch][i]) * x[i];
            }
            ch += 1;
            y.push(if l < 6 { sum * (0.5 + 0.5 * sum / (1.0 + sum * sum).sqrt()) } else { sum });
        }
        x = y;
    }
    x
}

#[test]
fn forward_matches_a_plain_network() {
    let q = sample_net();
    let net: DeployNet<F> = DeployNet::from_quantized(&q);
    let ab = DeployNet::<F>::white_lab_ab([F(0.95), F(1.0), F(1.09)]);
    for xyz in [[0.4f32, 0.35, 0.2], [0.05, 0.02, 0.3], [0.9, 1.0, 1.05]] {
        let want = forward_reference(&q, xyz.map(|x| x as f64), [ab[0].0 as f64, ab[1].0 as f64]);
        let exact = net.uplift_raw::<Exact>(xyz.map(F), ab);
        let fast = net.uplift_raw::<Fast>(xyz.map(F), ab);
        for i in 0..16 {
            close(exact[i].0, want[i], 1e-3 * (1.0 + want[i].abs()));
            close(fast[i].0, want[i], 1e-3 * (1.0 + want[i].abs()));
        }
    }
}

#[test]
fn load_reads_the_container() {
    // all channels raw, so that there is no payload
    let mut q = sample_net();
    let mut d: Vec<u8> = Vec::new();
    d.extend_from_slice(&MAGIC.to_le_bytes());
    d.extend_from_slice(&304u32.to_le_bytes());
    for _ in 0..304 {
        d.extend_from_slice(&[0x00, 0x3c, 0xFF]);
    }
    let mut halves = q.biases.clone();
    for row in q.rows.iter_mut() {
        for w in row.iter_mut() {
            let h = match *w {
                Weight::Raw(h) => h,
                Weight::Steps(q, _) => 0x3000 + (q + 15) as u16,
            };
            *w = Weight::Raw(h);
            halves.push(h);
        }
    }
    d.extend_from_slice(&(halves.len() as u32).to_le_bytes());
    for h in &halves {
        d.extend_from_slice(&h.to_le_bytes());
    }
    d.extend_from_slice(&12u32.to_le_bytes());
    for x in &q.floats {
        d.extend_from_slice(&x.to_le_bytes());
    }
    let a: DeployNet<F> = DeployNet::load(&d);
    let b: DeployNet<F> = DeployNet::from_quantized(&q);
    let xyz = [F(0.3), F(0.25), F(0.4)];
    let ab = [F(1.0), F(-2.0)];
    assert_eq!(a.uplift_raw::<Exact>(xyz, ab), b.uplift_raw::<Exact>(xyz, ab));
}

#[test]
fn uplift_bounds_the_raw_outputs() {
    let net: DeployNet<F> = DeployNet::from_quantized(&sample_net());
    let xyz = [F(0.4), F(0.35), F(0.2)];
    let ab = [F(-3.0), F(4.0)];
    let p = net.uplift::<Exact>(xyz, ab);
    let o = net.uplift_raw::<Exact>(xyz, ab);
    let want = UpliftParams::from_outputs::<X<8, false>>(&o);
    same(&p, &want);
    assert_eq!(p.s, want.s);
    assert_eq!(p.r, want.r);
    let copy = net.clone();
    assert_eq!(copy.uplift_raw::<Exact>(xyz, ab), o);
}

#[test]
fn features_are_standardized() {
    let net: DeployNet<F> = DeployNet::from_quantized(&sample_net());
    let xyz = [0.2f32, 0.3, 0.1];
    let x = net.input_features::<X<4, false>>(xyz.map(F), [F(2.0), F(-1.0)]);
    let lab = lab_reference(xyz.map(|v| v as f64));
    close(x[0].0, (lab[0] - 50.0) / 25.0, 1e-4);
    close(x[1].0, (lab[1] - 1.0) / 20.0, 1e-4);
    close(x[2].0, (lab[2] + 2.0) / 30.0, 1e-4);
    close(x[3].0, (2.0 - 0.5) / 5.0, 1e-6);
    close(x[4].0, (-1.0 + 0.5) / 6.0, 1e-6);
    let c2 = (lab[1] - 2.0).powi(2) + (lab[2] + 1.0).powi(2);
    close(x[5].0, (c2 - 900.0) / 800.0, 1e-4);
}

#[test]
fn split_sums_are_added_up() {
    // every input counts once, whichever partial sum it falls into
    let mut w = Vec::new();
    for i in 0..4 {
        for c in 0..16 {
            w.push(F((i * 16 + c) as f32));
        }
    }
    let b = [F(0.5); 16];
    let x = [F(1.0), F(10.0), F(100.0), F(1000.0)];
    let one = matvec_act::<F, X<16, false>, 16, false, 4, 16, 1, 1>(&w, &b, &x);
    let two = matvec_act::<F, X<16, false>, 16, false, 4, 16, 1, 2>(&w, &b, &x);
    let three = matvec_act::<F, X<16, false>, 16, false, 4, 16, 1, 3>(&w, &b, &x);
    let four = matvec_act::<F, X<16, false>, 16, false, 4, 16, 1, 4>(&w, &b, &x);
    for c in 0..16 {
        let want = 0.5 + (0..4).map(|i| (i * 16 + c) as f32 * 10f32.powi(i as i32)).sum::<f32>();
        assert_eq!(one[c].0, want);
        assert_eq!(two[c].0, want);
        assert_eq!(three[c].0, want);
        assert_eq!(four[c].0, want);
    }
}

#[test]
fn layer_reads_prefixes() {
    let w: Vec<F> = [1.0f32, 2.0, 3.0, 4.0, 10.0, 20.0, 30.0, 40.0, f32::NAN, 7.0].map(F).to_vec();
    let b: Vec<F> = [100.0f32, 200.0, 300.0, 400.0, f32::NAN].map(F).to_vec();
    let x = [F(1.0), F(2.0), F(f32::NAN)];
    let y = matvec_act::<F, X<4, false>, 4, false, 2, 4, 1, 2>(&w, &b, &x);
    assert_eq!(y, vec![F(121.0), F(242.0), F(363.0), F(484.0)]);
    let y = matvec_act::<F, X<2, false>, 2, false, 2, 4, 2, 1>(&w, &b, &x);
    assert_eq!(y, vec![F(121.0), F(242.0), F(363.0), F(484.0)]);
}

#[test]
fn layer_of_narrow_vectors() {
    let w = [1.0f32, 2.0, 3.0, 4.0, 10.0, 20.0, 30.0, 40.0].map(F);
    let b = [100.0f32, 200.0, 300.0, 400.0].map(F);
    let y = matvec_act::<F, X<4, false>, 4, false, 2, 4, 1, 2>(&w, &b, &[F(1.0), F(2.0)]);
    assert_eq!(y, [121.0f32, 242.0, 363.0, 484.0].map(F).to_vec());
    // two vectors of two lanes
    let y = matvec_act::<F, X<2, false>, 2, false, 2, 4, 2, 1>(&w, &b, &[F(1.0), F(2.0)]);
    assert_eq!(y, [121.0f32, 242.0, 363.0, 484.0].map(F).to_vec());
}

#[test]
fn activation_values() {
    let w = [F(1.0); 16];
    let b = [F(0.0); 16];
    for a in [-20.0f32, -3.0, -0.5, 0.0, 0.25, 1.0, 7.0, 50.0] {
        let exact = matvec_act::<F, X<16, false>, 16, true, 1, 16, 1, 1>(&w, &b, &[F(a)]);
        let fast = matvec_act::<F, X<16, true>, 16, true, 1, 16, 1, 1>(&w, &b, &[F(a)]);
        let v = a as f64;
        let want = v * (0.5 + 0.5 * v / (1.0 + v * v).sqrt());
        close(exact[3].0, want, 1e-5 * (1.0 + v.abs()));
        close(fast[3].0, want, 1e-5 * (1.0 + v.abs()));
    }
}

#[test]
fn bake_from_the_network() {
    let net: DeployNet<F> = DeployNet::from_quantized(&sample_net());
    let cube = LookupCube::<Exact, F32Storage, 2>::bake([F(0.1); 3], [F(0.9); 3], |xyz: [F; 3]| {
        net.uplift_raw::<Exact>(xyz, [F(0.0), F(0.0)])
    });
    let s = cube.sample([F(0.9), F(0.1), F(0.9)]);
    // the upper node is `lo + 1 * step`, which rounding takes off `hi`
    let hi = 0.1 + (0.9f32 - 0.1);
    let p = net.uplift::<Exact>([F(hi), F(0.1), F(hi)], [F(0.0), F(0.0)]);
    close(s.c.0, p.c.0 as f64, 1e-4);
    close(s.lambda_e.0, p.lambda_e.0 as f64, 1e-2);
}

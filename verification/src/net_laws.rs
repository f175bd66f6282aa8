//! Laws of the input encoding, in exact arithmetic.

use crate::formula::{cube_root, exact, exact_holds, is_cube_root, Formula};
use crate::ieee::{f32_value, lemma_f32_value, ZERO};
use crate::net::{
    chroma2_formula, fast_lab_f_formula, lab_f_formula, lab_gains, lab_lane_formula, lab_offsets,
    lab_weights, standardized, xyz_to_lab_formulas, A_GAIN, B_GAIN, LAB_EPS, LAB_KAPPA, LAB_OFFSET,
    LAB_SLOPE, L_GAIN, SIXTEEN,
};
use crate::params_laws::lemma_unit_values;
use vstd::arithmetic::power2::lemma2_to64;
use vstd::prelude::*;

verus! {

/// The values of the CIELAB constants.
pub proof fn lemma_lab_values()
    ensures
        f32_value(LAB_EPS) == 9509543real / 1073741824real,
        f32_value(LAB_KAPPA) == 14799608real / 16384real,
        f32_value(LAB_SLOPE) == 16330602real / 2097152real,
        f32_value(LAB_OFFSET) == 9256395real / 67108864real,
        f32_value(SIXTEEN) == 16real,
        f32_value(L_GAIN) == 116real,
        f32_value(A_GAIN) == 500real,
        f32_value(B_GAIN) == 200real,
{
    lemma2_to64();
    lemma_f32_value(LAB_EPS);
    lemma_f32_value(LAB_KAPPA);
    lemma_f32_value(LAB_SLOPE);
    lemma_f32_value(LAB_OFFSET);
    lemma_f32_value(SIXTEEN);
    lemma_f32_value(L_GAIN);
    lemma_f32_value(A_GAIN);
    lemma_f32_value(B_GAIN);
    assert(f32_value(LAB_EPS) == 9509543real / 1073741824real);
    assert(f32_value(SIXTEEN) == 8388608real / 524288real);
    assert(f32_value(L_GAIN) == 15204352real / 131072real);
    assert(f32_value(A_GAIN) == 16384000real / 32768real);
    assert(f32_value(B_GAIN) == 13107200real / 65536real);
}

/// A grey has no chroma: where the three coordinates are equal, `a` and `b` are zero.
pub proof fn law_grey_neutral(t: real)
    ensures
        ({
            let v = Formula::Val(t);
            let lab = xyz_to_lab_formulas(seq![v, v, v]);
            exact(lab[1]) == 0real && exact(lab[2]) == 0real
        }),
{
    reveal_with_fuel(exact, 3);
    lemma_lab_values();
}

/// The equal-energy white has a lightness of 100 and no chroma.
pub proof fn law_white_lightness()
    ensures
        ({
            let v = Formula::Val(1real);
            let lab = xyz_to_lab_formulas(seq![v, v, v]);
            exact(lab[0]) == 100real && exact(lab[1]) == 0real && exact(lab[2]) == 0real
        }),
{
    law_grey_neutral(1real);
    reveal_with_fuel(exact, 5);
    reveal_with_fuel(exact_holds, 2);
    lemma_lab_values();
    let s = cube_root(1real);
    assert(is_cube_root(1real, 1real));
    assert(is_cube_root(1real, s));
    assert(s == 1real) by (nonlinear_arith)
        requires
            s * s * s == 1real,
    ;
}

/// Lane `k` of the vector pass, with that lane's constants.
pub open spec fn lab_lane(k: int, p: real, f: real) -> Formula<real, real> {
    lab_lane_formula(
        Formula::Const(lab_gains()[k]),
        Formula::Val(p),
        Formula::Const(lab_weights()[k]),
        Formula::Val(f),
        Formula::Const(lab_offsets()[k]),
    )
}

/// The lanes of the vector pass are `L`, `a` and `b`: `116 * fy - 16`, `500 * (fx - fy)` and
/// `200 * (fy - fz)`.
pub proof fn law_lab_lanes(fx: real, fy: real, fz: real)
    ensures
        exact(lab_lane(0, fy, fx)) == 116real * fy - 16real,
        exact(lab_lane(1, fx, fy)) == 500real * (fx - fy),
        exact(lab_lane(2, fy, fz)) == 200real * (fy - fz),
{
    reveal_with_fuel(exact, 3);
    lemma_lab_values();
    lemma_unit_values();
    assert(0real * fx == 0real) by (nonlinear_arith);
    assert(exact(lab_lane(1, fx, fy)) == f32_value(A_GAIN) * fx - (f32_value(A_GAIN) * fy + f32_value(ZERO)));
    assert(exact(lab_lane(2, fy, fz)) == f32_value(B_GAIN) * fy - (f32_value(B_GAIN) * fz + f32_value(ZERO)));
}

/// The vector pass computes the CIELAB function: the same cube root above the threshold, and below
/// it a line that differs by the rounding of its constants alone, by less than a hundred-millionth.
pub proof fn law_fast_lab_f(t: real)
    ensures
        t > f32_value(LAB_EPS) ==> exact(fast_lab_f_formula(Formula::Val(t))) == exact(
            lab_f_formula(Formula::Val(t)),
        ),
        0real <= t <= f32_value(LAB_EPS) ==> {
            let d = exact(fast_lab_f_formula(Formula::Val(t))) - exact(lab_f_formula(Formula::Val(t)));
            -1real / 100000000real < d < 1real / 100000000real
        },
{
    reveal_with_fuel(exact, 5);
    reveal_with_fuel(exact_holds, 2);
    lemma_lab_values();
}

/// A standardized feature is the feature minus its mean, over its standard deviation.
pub proof fn law_standardized(raw: real, mean: real, std: real)
    requires
        std != 0real,
    ensures
        ({
            let inv = 1real / std;
            exact(standardized(Formula::Val(raw), inv, mean * inv)) == (raw - mean) / std
        }),
{
    reveal_with_fuel(exact, 2);
    let inv = 1real / std;
    assert(raw * inv - mean * inv == (raw - mean) / std) by (nonlinear_arith)
        requires
            inv == 1real / std,
            std != 0real,
    ;
}

/// The chroma feature is a squared distance: never negative, and zero for the white alone.
pub proof fn law_chroma(a: real, b: real, wa: real, wb: real)
    ensures
        ({
            let c2 = exact(chroma2_formula(Formula::Val(a), Formula::Val(b), Formula::Val(wa), Formula::Val(wb)));
            c2 >= 0real && (c2 == 0real <==> a == wa && b == wb)
        }),
{
    reveal_with_fuel(exact, 4);
    let x = a - wa;
    let y = b - wb;
    assert(x * x >= 0real && y * y >= 0real && (x * x == 0real <==> x == 0real) && (y * y == 0real <==> y == 0real))
        by (nonlinear_arith);
}

} // verus!

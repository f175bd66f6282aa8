//! Laws of the results of the fluorescence kernels, where the vector arithmetic is exact.

use crate::fluor::{at_hand, FluorProfile, Q};
use crate::fluor_laws::{
    law_absorption_range, law_attenuation_range, law_emission_defined, law_energy_conserved,
};
use crate::formula::{defined, defined_condition, evals, exact, Formula, Lanes, NnVector, Scalar};
use crate::model::{law_evals_exact, reads_lanes, reads_numbers, roots_exist, Model};
use crate::params::UpliftParams;
use crate::params_results::{law_params_in_range, law_uplift_bounded};
use vstd::prelude::*;

verus! {

/// A profile read as real numbers.
pub open spec fn read_profile<A>(f: spec_fn(A) -> real, p: FluorProfile<A>) -> FluorProfile<real> {
    FluorProfile {
        c: f(p.c),
        mu_a: f(p.mu_a),
        gamma_a: f(p.gamma_a),
        inv_gamma_a: f(p.inv_gamma_a),
        qc: f(p.qc),
        lambda_e: f(p.lambda_e),
        gamma_b: f(p.gamma_b),
        gamma_r: f(p.gamma_r),
        inv_gamma_b: f(p.inv_gamma_b),
        inv_gamma_r: f(p.inv_gamma_r),
        e_norm_rcp: f(p.e_norm_rcp),
        emis_a_blo: f(p.emis_a_blo),
        emis_a_rhi: f(p.emis_a_rhi),
        emis_blue_frac: f(p.emis_blue_frac),
        excite_a_lo: f(p.excite_a_lo),
        excite_da: f(p.excite_da),
        excite_int: f(p.excite_int),
        excite_rcp: f(p.excite_rcp),
    }
}

/// The absorption that the kernel returns is the one that its formula denotes, and lies in `0..=1`.
pub proof fn law_absorption_result<V: NnVector>(m: Model<V>, p: FluorProfile<V::Element>, lambda: V, r: V)
    requires
        m.is_exact(),
        evals(p.absorption_formula(Formula::Val(lambda)), r),
    ensures
        (m.lane)(r) == exact(read_profile(m.elem, p).absorption_formula(Formula::Val((m.lane)(lambda)))),
        0real < (m.lane)(r) <= 1real,
{
    let q = read_profile(m.elem, p);
    let e = p.absorption_formula(Formula::Val(lambda));
    assert(m.denote(e) == q.absorption_formula(Formula::Val((m.lane)(lambda)))) by {
        reveal_with_fuel(Model::denote, 6);
    }
    law_absorption_range(q, (m.lane)(lambda));
    law_evals_exact(m, e, r);
}

/// The emission that the kernel returns is the one that its formula denotes.
pub proof fn law_emission_result<V: NnVector>(m: Model<V>, p: FluorProfile<V::Element>, lambda: V, r: V)
    requires
        m.is_exact(),
        evals(p.emission_formula(Formula::Val(lambda)), r),
    ensures
        (m.lane)(r) == exact(read_profile(m.elem, p).emission_formula(Formula::Val((m.lane)(lambda)))),
{
    let q = read_profile(m.elem, p);
    let e = p.emission_formula(Formula::Val(lambda));
    assert(m.denote(e) == q.emission_formula(Formula::Val((m.lane)(lambda)))) by {
        reveal_with_fuel(Model::denote, 8);
        reveal_with_fuel(Model::denote_condition, 3);
    }
    law_emission_defined(q, (m.lane)(lambda));
    law_evals_exact(m, e, r);
}

/// The elastic attenuation that the kernel returns is the one that its formula denotes.
pub proof fn law_elastic_result<V: NnVector>(m: Model<V>, p: FluorProfile<V::Element>, lambda: V, r: V)
    requires
        m.is_exact(),
        evals(p.elastic_formula(Formula::Val(lambda)), r),
    ensures
        (m.lane)(r) == exact(read_profile(m.elem, p).elastic_formula(Formula::Val((m.lane)(lambda)))),
{
    let q = read_profile(m.elem, p);
    let e = p.elastic_formula(Formula::Val(lambda));
    assert(m.denote(e) == q.elastic_formula(Formula::Val((m.lane)(lambda)))) by {
        reveal_with_fuel(Model::denote, 7);
    }
    law_absorption_range(q, (m.lane)(lambda));
    assert(defined(q.elastic_formula(Formula::Val((m.lane)(lambda))))) by {
        reveal_with_fuel(defined, 2);
    }
    law_evals_exact(m, e, r);
}

/// The reradiation that the kernel returns is `Q c a(lambda_i) e(lambda_o)`: of rank one, and zero for a
/// material without fluorophore.
pub proof fn law_reradiation_result<V: NnVector>(
    m: Model<V>,
    p: FluorProfile<V::Element>,
    lambda_i: V,
    lambda_o: V,
    absorbed: V,
    emitted: V,
    r: V,
)
    requires
        m.is_exact(),
        evals(p.absorption_formula(Formula::Val(lambda_i)), absorbed),
        evals(p.emission_formula(Formula::Val(lambda_o)), emitted),
        evals(p.reradiation_formula(Formula::Val(lambda_i), Formula::Val(lambda_o)), r),
    ensures
        (m.lane)(r) == (m.elem)(p.qc) * (m.lane)(absorbed) * (m.lane)(emitted),
        (m.elem)(p.qc) == 0real ==> (m.lane)(r) == 0real,
{
    let q = read_profile(m.elem, p);
    let i = Formula::<real, real>::Val((m.lane)(lambda_i));
    let o = Formula::<real, real>::Val((m.lane)(lambda_o));
    let e = p.reradiation_formula(Formula::Val(lambda_i), Formula::Val(lambda_o));
    assert(m.denote(e) == q.reradiation_formula(i, o)) by {
        reveal_with_fuel(Model::denote, 9);
        reveal_with_fuel(Model::denote_condition, 3);
    }
    law_absorption_range(q, (m.lane)(lambda_i));
    law_emission_defined(q, (m.lane)(lambda_o));
    assert(defined(q.reradiation_formula(i, o))) by {
        reveal_with_fuel(defined, 3);
    }
    law_evals_exact(m, e, r);
    law_absorption_result(m, p, lambda_i, absorbed);
    law_emission_result(m, p, lambda_o, emitted);
    reveal_with_fuel(exact, 3);
    let a = (m.lane)(absorbed);
    let f = (m.lane)(emitted);
    assert(0real * a * f == 0real) by (nonlinear_arith);
}

/// The density that the kernel returns for an excitation wavelength is the one that its formula denotes.
pub proof fn law_excite_pdf_result<V: NnVector>(m: Model<V>, p: FluorProfile<V::Element>, lambda: V, r: V)
    requires
        m.is_exact(),
        evals(p.excite_pdf_formula(Formula::Val(lambda)), r),
    ensures
        (m.lane)(r) == exact(read_profile(m.elem, p).excite_pdf_formula(Formula::Val((m.lane)(lambda)))),
{
    let q = read_profile(m.elem, p);
    let l = Formula::<real, real>::Val((m.lane)(lambda));
    let e = p.excite_pdf_formula(Formula::Val(lambda));
    assert(m.denote(e) == q.excite_pdf_formula(l)) by {
        reveal_with_fuel(Model::denote, 9);
        reveal_with_fuel(Model::denote_condition, 4);
    }
    law_absorption_range(q, (m.lane)(lambda));
    assert(defined(q.excite_pdf_formula(l))) by {
        reveal_with_fuel(defined, 6);
        reveal_with_fuel(defined_condition, 6);
    }
    law_evals_exact(m, e, r);
}

/// Energy is conserved by what the kernels return: of the light that arrives at a wavelength, what is
/// reflected elastically and what is re-emitted add up to at most all of it.
pub proof fn law_energy_result<V: NnVector>(
    m: Model<V>,
    p: FluorProfile<V::Element>,
    lambda: V,
    absorbed: V,
    elastic: V,
    rho: real,
)
    requires
        m.is_exact(),
        evals(p.absorption_formula(Formula::Val(lambda)), absorbed),
        evals(p.elastic_formula(Formula::Val(lambda)), elastic),
        0real <= (m.elem)(p.c) <= 1real,
        (m.elem)(p.qc) == exact(Formula::Const(Q).mul(Formula::Val((m.elem)(p.c)))),
        0real <= rho <= 1real,
    ensures
        0real <= (m.lane)(elastic) <= 1real,
        (m.lane)(elastic) * rho + (m.elem)(p.qc) * (m.lane)(absorbed) <= 1real,
{
    let q = read_profile(m.elem, p);
    let l = (m.lane)(lambda);
    law_absorption_result(m, p, lambda, absorbed);
    law_elastic_result(m, p, lambda, elastic);
    law_attenuation_range(q, l);
    law_energy_conserved(q, rho, l);
}

/// The re-emitted share of the absorbed light.
pub proof fn lemma_yield<F: Scalar>(s: Model<F>, c: F, qc: F)
    requires
        reads_numbers(s),
        evals(Formula::Const(Q).mul(at_hand(c)), qc),
    ensures
        (s.elem)(qc) == exact(Formula::<real, real>::Const(Q).mul(Formula::Val((s.elem)(c)))),
{
    reveal_with_fuel(Model::denote, 3);
    reveal_with_fuel(exact, 3);
    reveal_with_fuel(defined, 3);
    law_evals_exact(s, Formula::<F, F>::Const(Q).mul(at_hand(c)), qc);
}

/// Whatever the network puts out, the material that comes of it conserves energy: at every wavelength
/// its base reflectance, attenuated, and the share of the absorbed light that is re-emitted add up to
/// at most one.
pub proof fn law_material_conserves_energy<
    F: Scalar,
    V4: Lanes<4, Element = F>,
    V8: Lanes<8, Element = F>,
    W: NnVector<Element = F>,
>(
    s: Model<F>,
    v: spec_fn(int) -> Model<V8>,
    m: Model<W>,
    o: Seq<F>,
    u: UpliftParams<F>,
    p: FluorProfile<F>,
    lambda: W,
    reflected: W,
    absorbed: W,
    elastic: W,
)
    requires
        reads_numbers(s),
        reads_lanes::<F, V8, 8>(s, v),
        m.is_exact(),
        m.elem == s.elem,
        roots_exist(),
        o.len() == 16,
        u.bounds::<V8>(o),
        p.is_of::<V4>(u.c, u.lambda_e, u.s, u.r),
        evals(u.reflectance_formula(Formula::Val(lambda)), reflected),
        evals(p.absorption_formula(Formula::Val(lambda)), absorbed),
        evals(p.elastic_formula(Formula::Val(lambda)), elastic),
    ensures
        (m.lane)(elastic) * (m.lane)(reflected) + (m.elem)(p.qc) * (m.lane)(absorbed) <= 1real,
{
    let scale = law_params_in_range::<F, V8>(s, v, o, u);
    law_uplift_bounded::<F, V8, W>(s, v, m, o, u, lambda, reflected);
    lemma_yield(s, u.c, p.qc);
    law_energy_result(m, p, lambda, absorbed, elastic, (m.lane)(reflected));
}

} // verus!

//! N-PEARL: neural predicted emission and reflectance from Lab.
//!
//! A spectral renderer needs a reflectance spectrum for every material, but materials are authored
//! as colours. Spectral uplift is the inverse map: from a colour to a plausible reflectance that
//! reproduces it under a reference illuminant. This crate runs a trained uplift model.
//!
//! * [`net::DeployNet`] is a small network from a colour, as CIELAB with the chromaticity of the
//!   authoring illuminant, to 16 numbers. Its weights are read from a compact quantized container
//!   ([`blob`], [`rice`]).
//! * [`params::UpliftParams`] are those numbers squashed into their ranges. They describe the base
//!   reflectance: a Chebyshev series in wavelength plus one Lorentzian resonance, through an
//!   algebraic sigmoid that keeps it within `0..=1`.
//! * [`fluor::FluorProfile`] is an energy-conserving fluorescence term, which reaches saturated
//!   colours that no reflectance reaches.
//! * [`cube::LookupCube`] is a baked grid of network outputs that stands in for the network.
//!
//! The kernels are generic over the vector arithmetic that they run on ([`formula::NnVector`],
//! [`formula::NnBackend`]). Their contracts state which operations are applied to which operands, as
//! a [`formula::Formula`] that the result evaluates. This holds for every arithmetic, rounding
//! included.
//!
//! * The modules whose names end in `_laws` state what the formulas denote as real numbers: ranges,
//!   energy conservation, homogeneity, continuity, and that the layers are affine. [`trig`] holds the
//!   tangent and the arc tangent, and [`integral`] the integrals that they give.
//! * Those whose names end in `_results`, and [`cube_seams`], carry the laws over to what the kernels
//!   return, where the vector arithmetic is exact ([`model`]). [`profile_integrals`] says that the closed
//!   forms of a profile are the integrals of its densities.
//! * Those whose names end in `_answers` say what the functions return, as arithmetic on their
//!   arguments with all constants written out: the numbers, where the vector arithmetic is exact, and
//!   which bytes of a container are taken for what.
//! * [`unique`], [`unique_results`] and [`cube_unique`] state what holds for every arithmetic that gives
//!   one result for given operands: that the kernels do too, bit for bit.

pub mod blob;
pub mod blob_answers;
pub mod blob_laws;
pub mod coding_answers;
pub mod cube;
pub mod cube_answers;
pub mod cube_laws;
pub mod cube_results;
pub mod cube_seams;
pub mod cube_unique;
pub mod fluor;
pub mod fluor_answers;
pub mod fluor_laws;
pub mod fluor_results;
pub mod formula;
pub mod ieee;
pub mod integral;
pub mod lanes;
pub mod layer;
pub mod layer_laws;
pub mod model;
pub mod net;
pub mod net_answers;
pub mod net_laws;
pub mod net_results;
pub mod params;
pub mod params_answers;
pub mod params_laws;
pub mod params_results;
pub mod profile_integrals;
pub mod profile_results;
pub mod rice;
pub mod term;
pub mod trig;
pub mod unique;
pub mod unique_results;

pub use formula::{NnBackend, NnVector};
pub use net::DeployNet;
pub use params::UpliftParams;

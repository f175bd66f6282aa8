N-PEARL
=======

Neural predicted emission and reflectance from Lab: spectral uplift for a spectral path tracer.

A spectral renderer needs a reflectance spectrum for every material, but art assets are authored as
colours. This library runs a trained model that picks, for a colour, a reflectance that behaves well
physically:

- A small network maps a colour to a few reconstruction parameters. Its weights come as a compact
  quantized container.
- A fixed reconstructor builds the base reflectance from a low-degree Chebyshev series plus one
  Lorentzian resonance, through an algebraic sigmoid.
- An energy-conserving fluorescence term reaches saturated colours that no reflectance reaches.
- A baked lookup cube can stand in for the network.

Layout
------

- `src/` is the library, verified with Verus. The numeric kernels are generic over the vector
  arithmetic; their contracts say which operations are applied to which operands. The `*_laws` and
  `*_results` modules say what that amounts to in exact arithmetic, and the `*unique*` modules what
  holds bit for bit.
- `tests/` runs the library on plain `f32` lanes.
- `app/` supplies the arithmetic of `thermite` vectors, per instruction set.

# ige_core

Discrete core of an inscribed-geometry engine (largest inscribed rectangle,
maximum inscribed circle), verified with Verus.

- `src/` — the verified library: histogram sweep of the raster solvers
  (`histogram`), Sobol and xorshift generators (`sobol`, `rng`), flat ring
  storage of polygon inputs (`rings`), grid-size decisions of the
  axis-aligned solvers (`axis_aligned`, `tuning`), solver catalogue and
  vocabulary (`algorithms`, `shared`, `mic`, `oriented`), the integer side of
  the C interface (`capi`), and the visualisation driver's command line and
  text helpers (`cli`, `config`, `render`).
- `app/` — the floating-point geometry around it (cell classification,
  rectangle weighting, containment, segment distances, the empty-rectangle
  solvers), the C entry point `ige_solve_axis_aligned` with the option
  defaults and `ige_rectangle_area`, and the driver's warnings.  The
  oriented, BCRS, GPU and maximum-inscribed-circle solvers are not part of
  this code, and neither are the C entry points `ige_solve` and
  `ige_solve_mic` that call them or the visualisation driver's rendering.
- `tests/` — tests of the library on concrete inputs.

# gfd

A symbolic expression engine for field equations, verified with Verus, and
the integer building blocks of the discretization and flow-solver layers.

## Layout

- `src/` — the verified library.
  - `number.rs`: exact decimal numbers (`mant * 10^exp`, canonical form) and
    their exact arithmetic; an operation whose result cannot be held is `None`.
  - `text.rs`: character classes, decimal text, joining.
  - `ast.rs`: the expression tree `Expr`, its view `Term`, SI units.
  - `tokenizer.rs`, `parser.rs`: text to tokens to trees, each specified by a
    spec function that the executable code is proved to compute.
  - `simplify.rs`, `differentiate.rs`, `linearize.rs`: algebraic
    simplification with exact constant folding, symbolic differentiation,
    source-term linearization.
  - `dimension.rs`, `validate.rs`: unit inference and the validation passes.
  - `codegen_latex.rs`, `codegen_rust.rs`: text generation.
  - `discretize.rs`, `fluid.rs`: element and scheme kinds, cell connectivity,
    compressed-sparse-row position lookups, the xorshift generator.
- `tests/` — tests of the library.
- `app/` — ordinary Rust around the library: JSON conversion (serde), the
  error type with its display text, and the floating-point kernels
  (shallow-water, compressible fluxes, equations of state, wall functions,
  reaction rates, FEM element kernels, FVM face interpolation, diffusive,
  source and temporal coefficients). The pressure-velocity coupling
  solvers (SIMPLE, SIMPLEC, PISO), the LES, species and particle solvers
  and the convective coefficient work on the mesh, field and scheme types
  of the project's core crate, which is not part of this repository.

Every public operation of `src/` states its result exactly in its `ensures`
clause; the `law_*` proof functions state properties that hold across
operations (identity rules of simplification, derivatives of constants,
read-after-write of the dimension context, and others).

# locus_core

Polynomials and single-input single-output transfer functions for control
systems, verified with Verus.

The verified library (`src/`) is generic over the coefficient type: every
scalar operation (zero test, `+ - * /`, negation, the conversion of a count
into a coefficient) is handed in as a closure in an `Arith` bundle. The
library's contracts give every result exactly, in terms of what those
closures return.

- `src/arith.rs`: the `Arith` bundle and its spec-level picture `ArithSpec`.
- `src/polynomial.rs`: `Polynomial` (construction with trimming, degree,
  zero test, Horner evaluation, derivative, sum, difference, product,
  scaling, negation) and long division `poly_div`.
- `src/tf.rs`: `TransferFunction` (construction with the properness checks,
  order, properness, evaluation).
- `src/connection.rs`: series, parallel, negative and positive feedback.
- `src/error.rs`: `CoreError`.
- `src/algebra.rs`, `src/laws.rs`: the properties that relate the
  operations; under exact (field) arithmetic, the value of a sum, product or
  quotient-and-remainder at any point, and the values of the connections.

`app/` is the `f64` face of the library: it supplies floating-point
arithmetic (which the verified code does not hold), evaluation at complex
frequencies through `num_complex`, the error messages through `thiserror`,
and the operator traits.

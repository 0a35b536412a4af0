# starky2

The decisions and computations of a STARK prover over two tables, a CPU table and
a Keccak table, that are tied together by cross-table lookups; and a gadget that
range-checks 32-bit values in a circuit. Written in Verus and proved against the
contracts of its functions.

## Layout

- `src/field.rs`, `src/algebra.rs`, `src/bits.rs`, `src/polynomial.rs`: the
  Goldilocks field and its quadratic extension, power sums and products,
  logarithms, and polynomials as lists.
- `src/table.rs`, `src/lookup.rs`: the tables, and the running products that tie
  columns of one to columns of the other.
- `src/stark.rs`, `src/quotient.rs`: constraint systems, and the values and pieces
  of quotient polynomials.
- `src/table_prover.rs`, `src/prover.rs`, `src/stark_proof.rs`: the provers of one
  table and of all tables. They do no hashing and no Fourier transforms: each
  method takes what came of one piece of such work and returns the next piece.
- `src/range_check.rs`: the range-check gadget.
- `app/`: runs all of this on plonky2.
- `tests/`: concrete values.

What Verus proves of the whole are the functions whose names start with `law_`,
such as that permuted rows end in the same running product, and that the point
one row after an opening point lies in the trace domain exactly if the opening
point does.

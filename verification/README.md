# recursion_core

Circuit-building and trace-layout logic for recursive STARK verification,
written in Verus and proved against its contracts.

- `src/circuit.rs` — the circuit builder: expression and op identifiers,
  permutation-table configurations, permutation calls, and the recorded
  circuit (constants, connections, permutation rows).
- `src/mmcs/openings.rs` — grouping the opened rows of a batch of matrices
  by padded height (`format_openings`), with the laws it obeys.
- `src/mmcs/path.rs` — the binary and 4-to-1 Merkle-path gadgets
  (`add_mmcs_verify`, `add_mmcs_verify_arity4`), with the laws they obey.
- `src/order.rs` — ordering matrices tallest first through `itertools`.
- `src/const_air.rs` — the constant-binding AIR: its preprocessed trace and
  the main trace matrix of a constant table.
- `src/matrix.rs` — the `p3-matrix` row-major matrices the traces are built in.
- `src/config.rs` — FRI parameter profiles, including the 60-Johnson-bit
  pure-query profile of the recursive Tip5 configuration.
- `src/pow2.rs` — powers of two and power-of-two ceilings.
- `app/` — the Plonky3 side: STARK configurations, the AIR trait
  implementations, and conversions from field elements to the canonical
  `u64` values the library works on.

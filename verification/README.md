# airbender_analysis

Translations of the Airbender RISC-V proving circuits for analysis tools, and the decision logic of
the fuzzers that exercise the prover, as a verified Verus library.

- `src/circuit.rs`, `src/tables.rs`: synthesized circuits, and the arithmetic of their lookup tables.
- `src/picus/`: constraint modules for the Picus determinism analysis, one per circuit or one per
  bit of an instruction mask.
- `src/llzk/`: lowering of a circuit and of its witness program to an LLZK struct with a `compute`
  and a `constrain` function.
- `src/fuzzing/`: seeds, mutations, crash records, the steps of a proof and of a whole run, and the
  comparison of the virtual machine with its oracle.
- `app/`: the command line program. Files, processes and text output stand there.

What a translation means is stated next to it: `picus::circuit_laws` and `llzk::circuit_laws` relate
the emitted constraints of a whole circuit to the circuit itself, `llzk::program_laws` relates the
`compute` function to the witness program, and the other `laws` modules do so for terms, lookups,
tables and expressions.

Random draws come from the `rand` crate. Its functions are called through the few trusted
declarations in `src/fuzzing/rng.rs` and `src/fuzzing/witgen.rs`; each says what it relies on.

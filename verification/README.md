# leansig_zkvm

Verified verification of leanSig XMSS signatures (TargetSum W=1, 155 chains,
tree height 18) over the KoalaBear field, written in Verus.

- `src/` is the verified library. Every public function states in its
  `ensures` what it returns, over spec functions of the hash, encoding and
  tree walk; public proof functions (`law_*`) state the algebraic and
  structural laws (field laws, tweak injectivity, chain composition, ...).
- The trusted base is small: Plonky3's Poseidon2 permutations
  (`plonky3.rs`), SHA-256 (`digest.rs`) and SHAKE128 (`compact/encoding.rs`)
  are called through `external_body` wrappers whose results are named, not
  described.
- `tests/` runs the library with the real outside crates linked.
- `app/` is the command-line driver: serialization, files, processes and
  the benchmark workflow.

# cft_bench

Benchmarks for CFT-based anonymity revocation and for credential
presentations with Circom/Groth16 and Longfellow (Google Benchmark).

- `src/` is the verified library (Verus): timestamps, CSV writing and
  reading, environment options, experiment grids and summary grouping,
  MP-SPDZ inputs and outputs, benchmark names, filters and command lines,
  paths, the BN254 field element, Poseidon Merkle trees, the packed
  revocation tree, the generated circuits and the credential's claims,
  Baby Jubjub points and scalars, EdDSA-Poseidon and the C4 binding,
  link-decrypt (linking, the recurring filter, the three decryptions and
  the C4 check) and the PET inputs and integrity phase of the MP-SPDZ
  benchmark, and the native Groth16 verifier for snarkjs artifacts
  (headers, coordinates and their curve checks, public signals, the
  pairing check). Outside crates (`ark-ff`, `ark-ec`, `ark-ed-on-bn254`, `ark-bn254`,
  `light-poseidon`, `sha2`, `regex`) and the `std::path` functions are
  reached through small trusted wrappers whose contracts are stated over
  named results.
- `app/` is the program around it: the command line, processes, files,
  reading the snarkjs JSON files, timing, random draws, floating-point
  statistics, and the arkworks curve configuration used to build the
  benchmark batches.
- `tests/` exercises the library with the outside crates linked.

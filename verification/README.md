# bellman-zorch

A Groth16 prover for [`bellman`](https://github.com/zkcrypto/bellman) circuits
over BN256 whose back-end (the h-polynomial FFT and the five multi-scalar
multiplications) runs as one fused xla executable on the GPU. Setup, witness
synthesis, the byte layout of the core's inputs and outputs, and bellman's
final proof assembly are a Verus-verified library; the GPU session and the
bellman `ConstraintSystem` plumbing sit around it.

## Layout

- `src/` — the verified library.
  - `field.rs` — BN256 `Fr`, `Fq`, `Fq2` as canonical little-endian
    encodings, viewed as residues; field operations through halo2curves.
  - `curve.rs` — affine G1/G2 points; the group law through halo2curves,
    its results named by uninterpreted functions.
  - `constraint.rs` — variables, linear combinations, synthesis errors.
  - `domain.rs` — bellman's radix-2 evaluation domain (size, `Z`, iFFT).
  - `setup.rs` — the Wnaf-free CRS generator: QAP synthesis
    (`KeypairAssembly`), evaluation at tau, the dense `GpuProvingKey` and its
    filtered `Parameters`, with the key that setup derives stated exactly.
  - `prove.rs` — witness synthesis (`ProvingAssignment`), the core's witness
    layout, and the final assembly of the proof from the core's outputs.
  - `qap.rs` — the laws that tie the two syntheses together: both read the
    same matrices, every operation keeps that, and the dense key's queries
    evaluate the prover's witness polynomials.
  - `gpu.rs` — the wire format of scalars and points, the decoding of the
    core's outputs, the key's upload buffers, and the shape check of a core
    by its file name, with round-trip laws.
- `tests/` — tests against halo2curves and bellman, including a MiMC circuit
  proved end to end and compared byte for byte with bellman's own prover
  (the core's outputs computed on the CPU).
- `app/` — the PJRT session and device buffers (`xla_pjrt`), bellman
  `ConstraintSystem` adapters, the toxic-waste draws of the random setup
  (`G1::random` loops until it finds a curve point), and `create_proof` and
  friends for bellman `Circuit`s.

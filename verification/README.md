# hpcrypt-mldsa

ML-DSA (FIPS 204) signatures — key generation, signing, verification, the
context-string API and batch signing and verification — written in Verus, with
each function's contract proved.

Layout of `src/`:

- `params`, `consts`, `reduce`, `modq`, `poly`: the parameter sets, the
  constants, Montgomery and Barrett-style reductions, congruence modulo q and
  polynomials.
- `twiddles`, `roots`, `ntt`, `ntt_eval`: the number-theoretic transform. The
  NTT is evaluation at the roots of X^256 + 1, the inverse undoes it in both
  orders, and products in the NTT domain are the products of
  Z_q[X]/(X^256 + 1).
- `rounding`, `hints`: Power2Round, Decompose, HighBits, LowBits, MakeHint and
  UseHint.
- `symmetric`, `rng`, `sampling`, `packing`, `serialize`: SHAKE (through the
  `sha3` crate), the operating system's random source (through `getrandom`),
  the samplers and the byte encodings.
- `keygen`, `sign`, `verify`, `context`, `batch`: the scheme itself, with
  `sign_spec` and `verify_spec` stating what signing and verification compute.
- `correctness`: a signature that signing makes with a generated key pair
  passes verification.
- `kat`: the reader of known-answer test files.

`app/` holds the serde and zeroize forms of the key types.

# provekit_ntt

Interleaved Reed-Solomon encoding over the BN254 scalar field, with the transform on the
host or on a CUDA device, and batches of SHA-256 digests on either.

- `src/` is the library. Its functions carry contracts that Verus proves; the small functions
  that call `ark_bn254`, `ark_ff`, `sha2` or the standard library say what they rely on.
  - `field`, `limbs`, `poly`, `bits`, `roots`: field elements, their limbs, polynomials,
    bit-reversed indices and roots of unity.
  - `transform`: the number-theoretic transform, proved to evaluate polynomials.
  - `layout`, `reed_solomon`: the interleaved layout and the encoder on the host, proved to
    yield Reed-Solomon codewords.
  - `settings`, `text`, `error`: settings from the environment and errors in words.
  - `device`, `cuda`, `cuda_encode`, `sppark`, `icicle`, `sha256`: what is handed to devices
    and what is made of their replies.
  - `backend`, `prove`: the choice of the encoder, and the `prove` command.
- `tests/` runs the library on concrete values, with devices that are played by software.
- `app/` is the process around the library: environment, device calls, kept state, and the
  command line.

Device transforms are passed in as functions. That they compute what they should is an
assumption which the contracts name: `computes_transform`, `computes_function`,
`computes_reversed_order`, `computes_columns` and `computes_digests`.

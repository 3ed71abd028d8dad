# attestation

A verified library for digital identity attestations: it checks mdoc responses, evaluates DCQL
queries, obtains credentials from an issuer over OpenID4VCI, and presents held credentials (SD-JWT VC
and mdoc) bound to a verifier's request. It performs no I/O and never holds a private key: the host
sends the requests and signs the inputs that the library hands out.

Every function in `src/` states in its contract what it returns, and Verus proves it. What holds of
several functions together is stated in the public proof functions whose names begin with `law_`.

## Layout

- `src/cbor.rs`, `src/json.rs`, `src/crypto.rs`: CBOR and JSON values, digests, base64, P-256; these
  call `ciborium`, `serde_json`, `sha2`, `base64ct`, `p256` and `x509-cert` through small wrappers.
- `src/text.rs`, `src/text_map.rs`, `src/datetime.rs`: texts, maps keyed by text, UTC instants.
- `src/types.rs`, `src/status.rs`, `src/trust.rs`, `src/secret.rs`: shared types.
- `src/mdoc/`: a response from its bytes to the verdict.
- `src/dcql/`: reading and evaluating queries.
- `src/openid4vp.rs`: the presentation request and its session transcript.
- `src/issuance/`: signing inputs, the session with an issuer, presentations, and the request and
  response that carry them.
- `app/`: the encoded form of requests and responses, and errors as standard errors.
- `tests/`: the library from outside.

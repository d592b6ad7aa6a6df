# stark_verifier

A verified core for an Internet Computer canister that checks Winterfell
STARK proofs of the computation `x -> x^3 + 42`, and for the off-chain
prover that produces them.

- `src/` is the library, proved with Verus: field arithmetic, the AIR's
  transition and boundary assertions, the prover's trace and public inputs,
  decimal public inputs, hex and Candid blob text, and the canister's
  request handling around the STARK verification.
- `app/` holds what Verus does not see: Winterfell's `Air` and `Prover`
  impls, the call of `winterfell::verify`, the canister endpoints, and the
  prover's `main`.
- `tests/` exercises the library.

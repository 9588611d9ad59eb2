# ic-rmcp

Owner management, API keys and usage reporting for canisters that serve the
Model Context Protocol on the Internet Computer. Every decision of the library
is written in Verus and proved against its contract.

- `src/` is the verified library. `treasury` guards the owner of a canister and
  its ICRC-1 funds, `api_key` keeps the hashed API keys of callers, and `beacon`
  counts tool calls and reports them to a tracker canister. The other modules
  hold what these are built from. Public proof functions whose names begin with
  `law_` state what holds across several calls.
- `tests/` runs the library on concrete values.
- `app/` binds the library to a canister: Candid types, inter-canister calls,
  timers and the clock.

The functions marked `#[verifier::external_body]` call `candid`, `num-bigint`,
`hex`, `sha2` and the standard library. Their contracts are trusted, and their
doc comments say what is claimed.

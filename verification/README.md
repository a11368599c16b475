# aggregator

The AshSwap aggregator contracts for MultiversX, with their decisions verified
in Verus.

- `src/` is the verified library, over plain values (amounts are unbounded
  naturals, addresses and token identifiers are byte strings):
  - `biguint.rs`: the unbounded naturals, as 32-bit limbs, with the
    arithmetic the contracts use (sum, difference, comparison, product with
    and division by a 32-bit number).
  - `aggregator.rs`: one run of `aggregate` as a state machine (`begin`,
    `deduct_fee`, `plan_step`/`record_swap` per step, `finish`), its
    specification as spec functions, and `aggregate_law`.
  - `fee.rs` and `ledger.rs`: the fee contract, its insertion-ordered
    ledgers, and the laws on charging and claiming fees.
  - `token_send.rs`, `wrapper_mock.rs`, `wrapper_view.rs` and
    `wrapper_view/`: which payments are sent, the EGLD wrapper mock, and the
    pool views.
  - `structs.rs`, `errors.rs`: the shared types and the error messages.
- `app/` holds the MultiversX contracts: they read payments and storage, call
  the pools and the fee contract, send tokens, and ask the library for every
  decision.
- `tests/` runs the library, among others through a small simulation of the
  chain with a pool that gives back 95% of what it is paid.

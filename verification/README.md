# allocation_targets

Allocation targets for a personal portfolio tracker: target profiles and their
weights, drift reports against the current allocation, cash-flow rebalance plans,
a drift-priority optimizer, and asset classification drafts. The library is
written in Verus and its contracts are proved.

The services the library reads (profile stores, taxonomy, allocation, holdings and
snapshot services, the assistant's environment) are traits that the application
implements. Each trait names, as a spec function, the answers its methods give for
their arguments, and each method ensures its result is such an answer. The contracts
of the library's services are stated over those answers: what each call is handed,
and what is made of what it returns.

## Layout

- `src/` — the verified library.
  - `dec.rs`: decimals as mantissa and scale, with the `rust_decimal` operations
    behind trusted wrappers.
  - `model.rs`, `allocation.rs`, `errors.rs`: domain types.
  - `validation.rs`, `target_service.rs`, `taxonomies.rs`: profile and weight rules.
  - `drift.rs`: drift reports (rows, status, ranking, maximum drift).
  - `rebalance.rs`: cash deployment plans, sleeve by sleeve, in two phases.
  - `optimizer.rs`: the drift-priority optimizer.
  - `classification.rs`, `text.rs`: asset lookup and classification drafts.
  - `storage.rs`, `dates.rs`, `sync_readiness.rs`, `performance.rs`: stored rows,
    sync state and quote sync.
- `tests/` — tests of the library.
- `app/` — the edges: JSON shapes, HTTP routes, desktop commands, the sync state
  and allocation target stores, and the assistant's tool definitions.

# sohara

The verified core of Sohara, a single-machine automation framework (flows of
sources, transforms, control steps and sinks) and of its control plane
(instances, reconciliation, relay and gateway). Every function under `src/`
is checked by Verus against its `requires`/`ensures` contract, except the
wrappers marked `#[verifier::external_body]` in `src/clock.rs` and
`src/paths.rs`: those make the calls into outside code, and Verus takes
their contracts on trust.

## Layout

- `src/text.rs`, `src/json.rs`, `src/keyed.rs` — strings, JSON values and
  tables keyed by strings, with their mathematical views.
- `src/runtime/` — the flow runtime: graph construction and validation
  (`graph`, `routes`, `kahn`, `warnings`), control steps (`control`,
  `buffers`, `walker`), the bookkeeping of a run (`executor`, `persist`,
  `stats`, `history`, `observe`, `pause`), serve mode (`serve`) and stdio
  extensions (`stdio_extensions`).
- `src/plane/` — the control plane: declarations (`types`, `agent`), the
  registry with reconciliation and relay (`registry`, `reconcile`, `relay`),
  the gateway and the manager's status probe.
- `src/persistence.rs` — the in-memory state store and its document form.
- `src/io.rs`, `src/script.rs` — HTTP and SQLite connectors, script steps
  and the host calls scripts make.
- `src/clock.rs`, `src/paths.rs` — the trusted calls into `chrono`, `uuid`
  and `std::path`.
- `src/order.rs`, `src/path_order.rs` — text order, path order (component
  by component) and the sorts that use them.
- `app/` — the plane server (axum), the connectors' network and database
  work, and extension manifests read from disk.
- `tests/` — tests run against the compiled library.

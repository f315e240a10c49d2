# kiro_gateway

The parts of a gateway that decide who sends a request and which credential serves a session, written in Rust and proved with Verus.

- `src/auth.rs`: the client address of a request (`extract_client_ip`), its API key (`extract_api_key`) and the comparison of keys (`constant_time_eq`). What holds of them in general stands in `src/auth_laws.rs`.
- `src/session_affinity.rs`: the bindings of sessions to credentials. What holds over several operations stands in `src/affinity_laws.rs`. The bindings are kept in `src/binding_table.rs`, the outcome labels in `src/sticky.rs`.
- `src/headers.rs`, `src/clock.rs`: what is taken on trust of axum's header types and of the clock of the system.
- `src/text.rs`: operations on text.
- `app/`: axum's connection data, the parsing of socket addresses, the lock round the bindings and JSON.

The operations of `SessionAffinity` that read the clock have counterparts with a name in `_at` that take the time. Their contracts give the result for every time.

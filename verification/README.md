# crdt_demo

Live multi-user collaborative editing on an RGA text document. Browser tabs
send intents (insert text at a visible index, delete a character by its
identity); the server owns the authoritative `crdts_kit` document, turns each
intent into canonical operations, appends them to an operation log and fans
them out to every tab, the author included.

Layout:

- `src/` — the verified library (Verus):
  - `ops.rs` — operation ids, canonical operations, client and server messages;
  - `kit.rs` — the `crdts_kit` document seen through named models (registry,
    version, clock, node list) and wrappers;
  - `model.rs` — the node list as plain values: visible ids and text,
    tombstoning, replaying operations;
  - `token.rs` — the name token of an upgrade request, found by `ws_kit`;
  - `name.rs` — display names (trim, 24-byte cut at a character boundary,
    `guest` fallback) and their laws;
  - `roster.rs` — the presence roster, ordered by site id, and its laws;
  - `state.rs` — the server state: site ids, join snapshots, intents,
    presence, and the law that replaying the log gives the document;
  - `session.rs` — what a connection does about each socket or room event.
- `app/` — the binary: axum routes, the WebSocket loop, JSON encoding, the
  room fan-out and the embedded frontend.
- `tests/` — sessions driven through the state, replayed on `crdts_kit`
  replicas; names; rosters.

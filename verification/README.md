# site

The server of a site that shows how fast a compiler is, as a Verus library with a thin server
around it.

- `src/server/` decides what is done about a request: routing and body limits (`serve`), bearer
  tokens and signed web hooks (`auth`), replies (`reply`), updates of the data (`push`), and the
  handlers (`info`, `dashboard`, `status`, `graph`, `graph_data`, `commit_idx`, `days`,
  `collected`, `self_profile`, `self_profile_laws`, `self_profile_request`).
- `src/collector.rs`, `src/db.rs` and `src/load.rs` hold the data that the handlers read, as plain
  values.
- `src/arithmetic.rs` is the boundary to floating point: the handlers decide which values meet in
  which operation, and the server supplies the operations.
- `src/text.rs`, `src/number.rs`, `src/order.rs` and `src/table.rs` are the tools that the handlers
  share.
- `src/generic.rs` and `src/vnpccr.rs` model a register of a display controller and its one field.
- `app/` receives requests, hands them to the library, and does what it says. What the rest of the
  site supplies is the trait `Source`.

What is believed without proof are the calls to `http`, `headers`, `hex` and `ring` in
`src/server/auth.rs`, the text of a duration in `src/server/push.rs`, and `String::push` in
`src/text.rs`.

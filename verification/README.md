# nmux client state

The client side of an nmux attach, verified with Verus: the pane surfaces a
client caches between attaches, the snapshots and patches that update them,
their rendering to plain or SGR-styled text, the text format in which the
cache is kept on disk, and the small protocol rules a client and server
share (input forwarding, surface responses, scrollback ranges).

Layout:

- `src/kinds.rs` – the protocol's enumerations, each with its wire code.
- `src/text.rs` – text helpers: decimal and hex fields, splitting, lines.
- `src/surface.rs` – cached pane surfaces, their validation and updates.
- `src/render.rs` – plain and styled rendering of surfaces and runs.
- `src/protocol.rs` – protocol summaries and the rules on input and versions.
- `src/client_state.rs` – the client's cache of surfaces and scrollback.
- `src/attach_request.rs` – attach requests and attach options.
- `src/surface_frame.rs`, `src/input_frame.rs`, `src/scrollback_frame.rs` –
  surface updates, input and scrollback chunks assembled from the parts of a
  frame, checked in order.
- `src/state_file.rs` – reading and writing the cache as text.
- `src/state_round_trip.rs`, `src/state_validity.rs` – proofs that what is
  written reads back, and that what is read is a valid cache.
- `src/cache_laws.rs` – what a lookup in the cache gives after a write.
- `src/error_text.rs` – the text of the library's errors.
- `app/lib.rs` – loading and saving the cache file, and reading socket
  errors.

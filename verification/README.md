# wasi_selector

Readiness selection over the `poll_oneoff` interface of WASI, verified with Verus.

A selector keeps the registered descriptors, builds the list of subscriptions that the host is
to poll, and sorts the events that the host reports: it gives them the tokens of their
registrations and takes the end of a timeout out. An event that says a descriptor is closed is
withheld, and drops the registration of the descriptor that its userdata names; once it has got
a token, that is the descriptor with the token's number, so the closed descriptor loses its own
registration where its token is its number. A source that was reported as ready is not asked for
again until it has been used; with WasmEdge, for writing it is asked for once more.

- `src/wasi.rs`: the data of the host interface
- `src/token.rs`, `src/error.rs`, `src/timeout.rs`, `src/ident.rs`: tokens and interests,
  errors, timeouts, the numbers of selectors
- `src/readiness.rs`: what a source may still be polled for
- `src/cells.rs`: who holds which cell of readiness
- `src/registrations.rs`: the registered descriptors and their subscriptions
- `src/dispatch.rs`: what is delivered of what the host reports
- `src/wamr.rs`, `src/wasmedge.rs`: the selectors for the two hosts, and in
  `src/wamr_laws.rs`, `src/wasmedge_laws.rs` what holds of them over several calls
- `src/event.rs`, `src/tcp.rs`: what a user reads of an event, decisions on TCP sockets
- `app/`: the host calls, the locks, and the conversions around the library

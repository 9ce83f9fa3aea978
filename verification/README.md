# thrust

The transport and code-generation core of a Thrift RPC implementation, verified
with Verus.

- `src/connection.rs` — one socket: its read/write cycle (`Reading` →
  `Writing` → `Reading`), the readiness it registers for, and the queue of
  outgoing bytes with its write position. Proved: the bytes handed to the peer
  are exactly the bytes written, in order.
- `src/reactor.rs` — the reactor's registry of listeners and connections,
  keyed by the tokens it allocates, and its decisions on readiness
  notifications and on the messages sent into the event loop, including which
  channel each connection reports to. Proved: the registry stays consistent
  and tokens are never reused.
- `src/codegen.rs` — the code generator's decisions: the Rust namespace
  declaration, the next step over a document's items, the template files and
  the deserializer expression of an argument type.
- `app/` — the mio event loop handler and the handlebars-based generator that
  carry out those decisions on real sockets, channels and files.
- `tests/` — scenarios run against the library.

# katcp

KATCP, the Karoo Array Telescope Control Protocol, version 5, as a Verus library: the functions of
`src/` carry contracts that Verus proves. Five wrappers around outside calls are the exception; their
contracts are believed: `utf8_text`, `utf8_text_lossy` and `push_char` in `src/text.rs` (the standard
library), and `compile` and `is_match` in `src/filter.rs` (the crate `regex`).

- `src/message.rs`, `src/wire.rs`, `src/line.rs`: messages, the wire format, and lines as they come
  in. `src/wire_laws.rs`: reading undoes writing, and a stream may be cut anywhere.
- `src/types.rs`, `src/decimal.rs`, `src/float.rs`, `src/address.rs`, `src/text.rs`: values and their
  encodings.
- `src/protocol.rs`: protocol versions and flags.
- `src/sensor.rs`, `src/sampling.rs`: sensors, their observers, and sampling strategies.
- `src/filter.rs`: sensor name filters, with the crate `regex`.
- `src/server.rs`, over `src/server_model.rs`: the device server. `src/server_laws.rs`: clients do
  not disturb each other, and nothing is left of a client that is gone.
- `src/client.rs`, over `src/client_model.rs`: the device client. `src/client_laws.rs`: requests are
  completed by their own replies, and updates arrive as they were sent.
- `app/`: TCP connections on tokio, callbacks, clocks and floating-point numbers, around the library.
- `tests/`: the library at work on concrete values, with a server and its clients in one process.

The library does no input or output and no floating-point arithmetic. It is handed what the machine
supplies, and says what is to be sent.

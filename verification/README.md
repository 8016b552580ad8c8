# memcrabd

A memcached-compatible cache server. The library (`src/`) is verified with
Verus; the program around it (`app/`) does the sockets, the async runtime,
logging, daemonizing and the command line.

- `protocol/` — whitespace and words of a line, decimal numbers, the read
  buffer (`bytes::BytesMut`) and `\r\n` search.
- `server/command.rs` — the commands and the parsing of a command line.
- `server/frame.rs` — cutting complete frames off the read buffer.
- `server/connection.rs` — the reply to each frame and the processing of a
  whole read buffer.
- `server/conns.rs` — the connection limit as a state machine.
- `server/bind.rs` — listen targets and the addresses that need no lookup.
- `server/port.rs`, `args.rs`, `log.rs` — command-line values.
- `store/` — the items (in a `dashmap::DashMap`), lazy expiry and CAS numbers.

Each module states its behaviour as `requires`/`ensures` over spec
functions; the `law_*` proof functions state properties that relate several
operations (a read gives back what a write stored, expired items vanish,
framing of pipelined requests, the connection counters).

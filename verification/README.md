# login_server

The verified core of a game login server.

- `src/protocol.rs` — the wire format: frames (start marker, 16-bit
  little-endian length, payload, end marker), length-prefixed strings and
  little-endian integers; scanning a receive buffer for frames and taking
  bytes into a connection's buffer. It states the laws of the format:
  what `frame` wraps `extract_frame` gives back, the way bytes are chunked
  on the way does not change the frames that come out, and what
  `write_string2` writes `read_string2` reads back.
- `src/handler.rs` — the answers to version, download information, server
  list and news requests.
- `src/login.rs` — the steps of a login, from the request to the answer,
  each taking what the previous database lookup returned.
- `src/config.rs`, `src/servers.rs` — configuration, the handler's context
  and the game servers' user counts.
- `app/` — the program around it: configuration file, TCP connections,
  the database pool and the periodic user count refresh.

# yipd

The decisions of a mesh VPN daemon, verified with Verus: which peer a datagram belongs
to, which handshake is answered, how a session is rekeyed, which path a peer is reached
by, and what goes out on every tick.

- `src/` is the library. `peer_manager` holds the table of peers and its transitions;
  `peer_manager/laws.rs` states what holds across them. `wire`, `tls`, `rendezvous`,
  `relay_client` and `quic` frame and carry what the table sends.
- `app/` is the ordinary Rust around it: sockets, threads, tasks, and the traits behind
  which the handshake, the sessions and the codecs stand.
- `tests/` runs the library on whole exchanges between nodes.

The library performs no I/O. What only the outside can answer (a handshake read, a
random draw, a path that came up) is handed in as a plain value, and each function says
what follows for every such value.

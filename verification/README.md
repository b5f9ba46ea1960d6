# neb_offload

Remote zstd offload for NotEnoughBandwidth: a game server's compression and
decompression run on another machine, over UCX tag matching. Streaming zstd
contexts live on the offload server, one pair per game connection.

- `src/` is the library: the wire protocol, the zstd contexts, the decisions of
  the server, the client and the transport, the metrics and their text, and the
  command line. Every function in it is verified with Verus against its
  contract, apart from the few wrappers named below. Properties that span
  several functions are public proof functions named `law_*`.
- `app/` is the rest: the server program with its threads and sockets, the
  binding to UCX, and the client's C ABI (`neb_open`, `neb_compress`,
  `neb_compress_oneshot`, `neb_decompress`, `neb_reset_conn`, `neb_close`).
- `tests/` runs the library with the real zstd.

What the proofs rest on stands in two places: `src/codec.rs` states what the
`zstd` crate's calls do, and `src/http.rs` what `String::from_utf8_lossy` does.

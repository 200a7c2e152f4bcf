# msgio

Length-prefixed message framing, verified with Verus.

A message travels as a length prefix (an unsigned LEB128 varint or a
big-endian `u32`), the message bytes, and an optional `'\n'` suffix that the
prefix counts.

- `src/varint.rs` — varint encoding and decoding, with the round-trip laws.
- `src/codec.rs` — `Prefix`, `Suffix`, `LengthPrefixed` and the `Codec`
  trait; decoding a frame gives the message back, and a partial frame waits.
- `src/read.rs`, `src/write.rs`, `src/lpm.rs` — reading and writing framed
  messages over byte slices and vectors.
- `src/vpm.rs` — the varint codec over `tokio-core` buffers.
- `src/stack.rs` — one codec stacked on another.
- `src/framed.rs` — the buffering decisions of a framed stream.
- `src/buffer.rs` — the `bytes` and `tokio-core` buffer operations the library
  relies on, each with the contract that the library trusts.
- `app/` — `tokio-io`, `tokio-core`, `futures` and `std::io` glue.

# vertx

The core logic of the VerTX RC handset firmware, verified with Verus.

- `src/crsf`: the CRSF link protocol: frame reading and checksums, the packet
  decoder and encoder, RC channel unpacking.
- `src/filesystem`: the block filesystem's bookkeeping: the header block and
  its model table, buffer states, file cursors and the model name table.
- `src/config`: configuration keys, updates of values, bounded integers, the
  stored form of values and their postcard-style encoding, and the stored
  configuration record.
- `src/target`: the JSON description of a target board.
- `src/network`: network settings, HTTP methods, API responses and
  server-sent event framing.
- `src/server`: the configurator's HTTP server: request heads, routing,
  static files and response bytes; the set-up of the network stack.
- `src/api`, `src/ipc`, `src/simulator`: the WebSocket API's requests, the
  messages between the handset, its backpack and the simulator, and the
  decisions taken on them.
- `app/`: the I/O around the library (the HTTP connection loop) and copies of
  the library's types with serde derives.
- `tests/`: tests run against the compiled library.

Run `verus` on `src/lib.rs` to check the proofs.

# aqueduct

A verified implementation of the Bundle Protocol version 7 (RFC 9171) data
path: a minimal CBOR codec, CRC-16 and CRC-32C block checksums, endpoint IDs,
primary and canonical blocks, extension blocks, a filter and mutator
pipeline, and streaming bundle reading and writing through retention stores.
Every function of the library is proved with Verus against a contract stated
over mathematical models of the bytes involved.

## Layout

- `src/cbor` — CBOR encoding and decoding, over buffers and over byte
  streams, with the encodings as spec functions and round-trip lemmas.
- `src/bpv7` — bundles in memory: CRCs, endpoint IDs, primary and canonical
  blocks, extension blocks (hop count, previous node, bundle age), the
  filter traits and the built-in filters and mutators.
- `src/bundle` — bundles backed by a retention store: the streaming writer
  and reader sessions, the model of what a stream reader gives for given
  bytes (`io/model.rs`, with the law that reading a written bundle gives it
  back), the filter chain, the in-memory retention, the bookkeeping of
  flash and object-store retention, and buffered ingest for asynchronous
  sources.
- `src/io.rs` — the byte source and sink traits, with models of the bytes
  they will yield and have accepted.
- `tests/` — tests of the library on concrete values.
- `app/` — what touches the outside world: the asynchronous reader and
  writer, the object-store retention, and storage on disk and NOR flash,
  each run on the library's sessions.

Verify with `verus` on `src/lib.rs`.

# s2_input

An input connector that reads records from an S2 stream, exactly once, with a verified core.

- `src/` is the core, verified with Verus. It decodes the event stream (`sse`), numbers the records
  of a batch (`batch`), decides which of them are taken (`admission`), builds requests and drives
  the connection (`stream`), reads a checkpoint again (`replay`), and queues records and hands them
  on in batches (`worker`). `endpoint` opens a reader, and `reader` takes it from its replays to
  work. `sse_laws`, `laws` and `replay_laws` state what holds of the decoder, of the reader as a
  whole, and of replays.
- `app/` is ordinary Rust around the core: the HTTP client, the JSON forms, and the interface to
  the pipeline.
- `tests/` runs the core.

The core trusts five functions: the XXH3 digest of `xxhash-rust` (`digest`), the clock of `chrono`
(`clock`), the text of a status code in `awc` and std's lossy UTF-8 decoding (`text`), and std's
`Arc::clone` (`config`).

# decoupled_ai

The verified core of a local model-serving stack, written in Verus.

- `src/brain_pack/` — the `.brain` weight container: fixed-size binary
  records, the builder and the reader (checksummed with SHA-256), the
  sharded layout (one resident base fragment, fifteen streaming fragments
  and a routing index), safetensors framing and conversion, layer numbers
  in tensor names, the download chunk plan and the in-order release of
  fetched chunks.
- `src/engine_ipc/` — speculative decoding: the n-gram continuation index
  with its eviction policy, draft checking, KV-cache bookkeeping, the
  decisions of the generation loops, and the engine's messages.
- `src/stream_cache.rs` — the LRU policy and counters of the streaming
  shard cache.
- `src/mem.rs` — mapped tensor views, shared memory regions and wide
  strings.
- `src/openai.rs` — the OpenAI-compatible request shapes and the
  character-level tokenizer.
- `src/server/` — GPU ranking and selection, parsing of the GPU query
  tools' output, update checks, download progress totals and the server
  configuration.
- `src/assets.rs`, `src/pages.rs` — the dashboard's static files and pages.
- `src/docs.rs` — documentation extraction from source lines and the
  documentation audit.
- `app/` — the command-line front end: file and process I/O (downloads
  through the system `curl`), JSON through serde, and the calls into the
  library.

Every public function of the library carries a `requires`/`ensures`
contract over spec functions; the laws that relate several functions
(encode/decode round trips, routing of a sharding plan, the per-shard
byte cap, finding a streamed tensor again, the index size cap, answers after
an insert, backoff lookups, eviction order, ranking order, pin/unpin, tokenizer round trip, chunk tiling) are
public proof functions next to the code they speak of.

# pixelrag

Visual retrieval-augmented generation: documents are rendered to screenshots,
cut into tiles, embedded, indexed for nearest-neighbour search, and scored
against ground truth by a benchmark harness.

- `src/` is the verified library: tiling, configuration and genome overlays,
  command-line parsing, fixture readers, the LRU embedding cache and its batch
  bookkeeping, content hashing, the synthetic embedder's stream, the index
  adaptor's rules, ingest bookkeeping, the retrieval-metric counts, and the
  checks applied to sidecar replies. Every function carries a contract proved
  by Verus; the `law_*` proof functions state properties that span calls.
- `app/` is the command-line program around it: process and file I/O, the
  nearest-neighbour backends, float arithmetic (embeddings, metric ratios,
  latency percentiles) and report writing.
- `tests/` exercises the library on concrete values.

# mpdf_core

The processing core of M PDF Processor, written in Verus: every function in
`src/` carries a contract that Verus proves.

## Layout

- `src/` — the verified library.
  - `document_package` — the document package record and its validation
    (IDs, digests, paths, assets, provenance, page geometry).
  - `bookmarks/` — the bookmark compiler: the input checks and routes,
    the package's own outline, contents-page detection and parsing, the
    printed-page mapping, the monotone target selection, scoring and the
    confidence decision, levels and parents, heading proposals, the
    snapshot record and report, and the review model with its effective
    view.
  - `benchmark/`, `benchmark_fixtures` — benchmark metrics, limits and the
    synthetic ground truth.
  - `binarization/`, `gray`, `mask`, `cleanup` — integer image kernels.
  - `derived`, `overlay`, `chunks`, `review_queue` — derived-document
    records, revision overlays, text chunks and the review queue.
  - `jobs` — the job and lease state machine.
  - `sorting`, `text`, `digest` — stable ordering, text helpers and
    SHA-256 behind a trusted wrapper.
- `tests/` — ordinary Rust tests against the compiled library.
- `app/` — what the library cannot hold: file and database I/O, JSON
  (de)serialization of the stored records (and the digests taken of
  them), image encoding and floating-point image arithmetic.

Values that come from floating-point geometry (box tops, heights, boxes
written as text) reach the library as integers, booleans or strings
computed in `app/`.

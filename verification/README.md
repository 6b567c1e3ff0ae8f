# sniffcss

A library for capturing and checking computed CSS styles, verified with
Verus, and the `sniffCSS-check` program built on it.

- `src/` — the verified library. Configuration and command-line option
  parsing (`config`, `wait`, `action`, `cli`, `tools`), the CSS property
  catalog (`properties`), snapshot naming, timestamps and the snapshot
  store's path rules and listing order (`snapshot`, `store`), DevTools
  endpoint parsing, frame routing and error texts (`endpoint`, `cdp`),
  the persisted login: which cookies are restored and how, the
  `localStorage` restore script and the state read back from the
  browser (`storage`), snapshot loading from JSONL text (`json`,
  `load`), the structural tree diff (sibling matching and forest
  reconstruction in `diff`, changed, added and removed nodes with their
  property-level differences in `delta`), and the offline checks'
  decisions: what a node's facts are (`facts`), per-node structural
  rules (`checks`), paint order over a flattened forest (`stacking`),
  the uniformity check's instance properties, property plan and
  per-instance grouping (`uniformity`) and check bookkeeping (`rules`).
- `app/` — the `sniffCSS-check` program: reads a snapshot file, measures
  geometry and color contrast (floating point), calls the library's rules
  and writes JSONL. Run as `sniffCSS-check diff BASE HEAD` it diffs two
  snapshots with the library and applies the numeric tolerance (floating
  point) to what the library found. `app/storage.rs` reads and writes
  the session state file and the CDP JSON around the library's
  storage-state logic.
- `tests/` — tests of the library's public functions on concrete values.

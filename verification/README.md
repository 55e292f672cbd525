# apex_exec

A verified library for an Apex toolchain: lexing and parsing Apex source,
rendering diagnostics, API-version compatibility profiles, intrinsic call
targets, editor positions, CI sharding, Salesforce response and log
normalization, metadata inventory and drift detection for hybrid
local/org validation, and the enterprise-evidence manifest and counts.

Verus checks every function under `src/`. Most carry a `requires`/`ensures`
contract over `Seq`, `Set` and `Map` models of the data. The lexer's contract
fixes the exact token sequence of a text, or its first error. The parser's
contracts state what each step does on its simplest inputs, and the exact
tree of expressions of literals and binary operators (ten precedence levels,
each associating to the left), not the
whole grammar. The traversal in `src/ast/visit.rs` records each hook call in
the visitor's log, and each walk's contract states the exact calls it makes,
in source order.
Laws that relate several functions stand as public proof functions
(`lemma_*`) next to the code they speak of.

## Layout

- `src/span.rs`, `src/token.rs`, `src/lexer.rs`: source identities, spans,
  and the tokenizer.
- `src/ast.rs`, `src/ast/visit.rs`, `src/parser/*`: the syntax tree, its
  traversal, and the recursive-descent parser.
- `src/diagnostic.rs`, `src/editor.rs`, `src/text.rs`: diagnostics,
  line/column arithmetic, and UTF-8 helpers.
- `src/compatibility.rs`, `src/hir.rs`, `src/hir/intrinsic.rs`: API
  versions, runtime profiles, and intrinsic targets.
- `src/json.rs`, `src/oracle.rs`: a JSON value model and the Salesforce
  response/log normalizers.
- `src/hybrid.rs`, `src/hybrid/*`: component classification, inventories
  and their checks, recorded validation snapshots, drift and release
  blockers.
- `src/ci.rs`, `src/enterprise/*`: CI shards and diagnostics; the
  enterprise manifest (its inputs, their verification and its checks), the
  counts, and the Salesforce capture checks.
- `app/`: the command-line front end and the file-system and JSON glue.
- `tests/`: executable tests of the library.

Outside crates: `sha2` computes digests and `chrono` reads RFC 3339
timestamps (both called from `src/` through trusted wrappers); `serde` and
`serde_json` read and write JSON in `app/` and in tests.

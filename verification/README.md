# terminal_interop

Verified contracts for terminal interoperability: live capability evidence, capability
negotiation, terminal protocol parsers (DA1, window geometry, Kitty graphics, Sixel, tmux
passthrough), short artifact references, and local callback intents. The library is written in
Verus; every public function carries a contract that Verus proves against its body.

## Layout

- `src/evidence.rs` — probe receipts, their structural validation, and first-eligible capability
  negotiation with its derived-field invariant.
- `src/da1.rs`, `src/geometry.rs`, `src/kgp.rs`, `src/sixel.rs`, `src/tmux.rs` — protocol
  queries, byte-exact response parsers stated as grammars over the input, and assessments.
- `src/artifact_ref.rs` — reference tokens, record validation, registry paths, and the checks
  made while registering and resolving an artifact.
- `src/intent.rs` — endpoints, open intents, callback URIs, length-prefixed frames, and socket
  paths.
- `src/orchestration.rs` — the decisions of a live probe: transport choice, when to stop reading,
  transport preparation, receipt assembly, and contract dispatch.
- `src/codec.rs`, `src/text.rs`, `src/paths.rs` — Base64, SHA-256, randomness and UTF-8 from
  outside crates and std behind small trusted wrappers; character, decimal and Unix path helpers.
- `tests/` — executable tests of the library.
- `app/` — the `term-interop` command line: argument parsing, TTY and socket I/O, file system
  work, and JSON (serde) forms of the records.

Public proof functions named `lemma_*` state properties that span several functions, such as
callback URIs parsing back to the intent they were built from, registered entries validating and
resolving to their path, and assembled receipts passing validation.

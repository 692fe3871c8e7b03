# lspgraph

Explore a codebase's call graph by driving any language server's call
hierarchy. The library under `src/` is verified with Verus: every public
function has a contract over a mathematical model of its data, and the
properties the program depends on are stated and proved as lemmas. The few
calls into `url`, `sha2` and the standard library go through small trusted
wrappers that state what the outside code promises, and no more.

## Layout

- `src/` — the verified library.
  - `transport/codec.rs`: Content-Length framing; decoding an encoded frame
    gives the payload back, and a partial frame waits.
  - `transport/mod.rs`: what an incoming JSON-RPC message is (response,
    server request, notification), how it is answered, what a response means.
  - `json.rs`: JSON values as the library reads them.
  - `graph.rs`: node identity, the call graph, upsert/expansion/invalidation;
    rebuilding a graph from its parts gives the same graph.
  - `engine.rs`: lazy, memoized expansion; the engine decides, the program
    talks to the server.
  - `symbols.rs`: which symbols are named callables; `workspace/symbol` parsing.
  - `server.rs`: request parameters and capability checks.
  - `readiness.rs`: sampling files and the one deadline for gathering and
    polling candidates.
  - `config.rs`, `strmap.rs`: server tables, kept in language order.
  - `cache.rs`: cache file contents, location and staleness.
  - `uri.rs`, `paths.rs`, `text.rs`, `clock.rs`, `error.rs`: the supporting
    pieces.
  - `tui/`: the terminal interface's state machine, key bindings, the text of
    each screen, start-up decisions and the worker's reports.
- `app/` — the program around the library: processes, pipes and threads,
  files and the environment, terminal drawing, and the serde forms of the
  library's types.
- `tests/` — tests of the library, run against the real outside crates.

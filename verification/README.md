# code-seek

Explores the functional structure of a repository: for each source file
of a registered language (C, C++, QML and Rust) it lists the classes, structs, enums, functions, methods,
traits, impls and namespaces with their lines of code and line ranges, as a
tree on the terminal, as JSON, or through an MCP server. Parsers for Go,
Python, JavaScript, TypeScript and Elixir exist too (`parse_text` takes
them by name), but those languages are not registered: `detect` never
selects them, so a scan does not pick their files up.

## Layout

- `src/` — the library, verified with Verus. Every public function states
  what it returns over mathematical models (`Seq`, `Map`, views of each
  type):
  - `lang/` — language detection, effective-LOC counting (`LocMap`), the
    per-language entity extraction from a syntax tree, import extraction and
    resolution, syntax-error collection;
  - `scan/` — the language filter, the cache-aware scan of one file, the
    pipeline over all files, entity filters, tree and JSON rendering, entity
    lookup, summaries and name search;
  - `cache.rs` — results keyed by path and content hash;
  - `mcp.rs` — what each JSON-RPC message is answered;
  - `gitignore.rs`, `walker.rs`, `state.rs` — what git shows, which directory
    entries are walked, where per-project state lives;
  - `json.rs`, `text.rs`, `paths.rs`, `model.rs` — shared values.
- `app/` — the command line, file system, git process, standard streams and
  the configuration file; it asks the library for every decision.
- `tests/` — tests of the library on concrete values.

## What is proved beyond each function's contract

- Parsed entities are in name order within every parent, and the entity
  filters keep that order; scan results come sorted by path.
- Sorting by name is ordered and keeps exactly the same entities.
- A cache lookup after a store finds what was stored; scanning an unchanged
  file again is answered from the cache and changes nothing.
- A line count is the number of code lines in its range; counts over
  adjacent ranges add up; a range never counts more lines than it spans;
  the whole-file count is the total.
- The entity filters: no criteria keep everything; the depth ceiling is
  respected and can be applied before the match; filtering is idempotent;
  stripping test modules leaves none and is idempotent; keeping only test
  modules is idempotent. Entity counts add up.
- Every allowed directory is an ancestor of an allowed file, and the
  directory of each allowed file is allowed.
- Every request to the MCP server is answered as JSON-RPC 2.0 under its own
  id; a notification gets no answer.
- A project keeps its state slot across calls; a second project with the
  same directory name gets a distinct one.

## Trusted boundary

Calls into tree-sitter and its grammars, `sha2`, `unicode-width` and a few
`std` functions (paths, UTF-8 decoding, lowercase mapping, collecting
characters) sit behind small `#[verifier::external_body]` wrappers whose
doc comments say what their contracts claim.

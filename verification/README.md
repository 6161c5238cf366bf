# ozymem

Project memory for code bases: a registry of projects and their watchers, an
index of files and their dependencies, lessons and conventions learnt while
working on them, and a command line and terminal dashboard over all of it.

The library (`src/`) holds the rules and computations, each stated in Verus
contracts and proved:

- `paths`, `text`: paths as text (components, file names, extensions, ignore
  patterns, the stored form of a path) and the character-level helpers behind
  them.
- `registry`, `projects`: project scale and status, unique project names,
  which registered project a directory belongs to, guarded roots, and the
  shortened paths and log summaries of the status table.
- `sync`, `watch`, `language`, `digest`: which changed files are re-indexed
  or cleaned from the graph, which parser a file goes to, and content
  digests (SHA-256 and hex through `sha2` and `hex`).
- `engram`: the incremental store of symbol contracts, with its laws (a
  lookup gives back what was written, compaction keeps every lookup).
- `graph`, `reach`: the dependency graph of a project's files, held in a
  `petgraph` graph: rebuilding it from the stored rows, a file's neighbours,
  simple paths between two files, and the breadth-first walk behind impact
  analysis, proved to reach exactly the reachable files, each at its
  distance, in breadth-first order.
- `query`, `tree`, `impact`, `targets`, `summary`, `contracts`, `drift`:
  the safe query translator, dependency trees and traces, impact judgements,
  locating a file by its ending, graph summaries, export-contract checks and
  convention drift.
- `memory`, `lessons`, `bundle`, `exploration`: topic keys and content
  hashes, learnings captured from session notes, how lessons are printed and
  when they go stale, knowledge bundles and their checksums, exploration
  nodes, the choice of trajectory for a Dream round and the diagnosis of a
  trajectory (its totals, bottlenecks and pruned steps).
- `hooks`, `git`: the git post-commit hook (installing is idempotent,
  removing undoes installing) and what the git backend reports.
- `status`, `dashboard`, `vectors`: the status report and project list, the
  terminal dashboard's key handling and figures, and the listing and ranking
  of stored vector memories.

`app/` is the command line around it: argument parsing, files, the SQLite
registry, the terminal, and the other input and output.

`tests/` runs the library on concrete values.

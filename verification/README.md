# vellum

A local-first story harness: import a long novel, pick who you are, and play
through it turn by turn, with source evidence, memory, a timeline and rollback.

The rules of the harness are a Verus library under `src/`, verified by
Verus against the contracts its functions state:

- `text`: whitespace, trimming, line splitting and compaction of prose.
- `import`: chapter detection, units and fixed-width chunks of a book, the
  choice of what an import reads (text, markdown, EPUB entries, folders), and
  the steps of an import job from queued to completed or failed.
- `index`: character n-grams of chunks and queries, and the ranking of chunks
  for a query.
- `records`: the stored records (books, jobs, sessions, turns, events) and the
  single states of an import job.
- `session`: new sessions and turns, and what a rollback keeps.
- `harness`: the turn loop as a state machine from stage and event to the next
  stage and the command to run (search, draft, save, load).
- `model`: provider profiles, their validation, and the built-in mock model.
- `foreign`: the calls into `regex`, `uuid`, `chrono` and `std::time`, each
  with the contract it is trusted to meet; what reads the clock states
  nothing of its value.

`app/` holds what the library hands off: SQLite storage, file and archive
reading, JSON, and the async driver of the turn loop. `tests/` runs the
library on concrete books, sessions and queries.

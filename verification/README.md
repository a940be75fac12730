# minigu

The core of a graph database, written in Verus: what a graph holds, who sees which version of it,
how it is saved and found again, and how queries over it are bound, planned and aggregated.

- `src/common` — scalar values, types, arrays and chunks of rows.
- `src/storage/tp` — the transactional graph: versions, transactions, garbage, iterators, and
  checkpoints under `checkpoint`.
- `src/storage/ap` — the analytical graph: blocks of edges, columns of properties, compression.
- `src/query` — binding the names of a query and planning what was bound.
- `src/execution` — executors over chunks of rows, and aggregation.
- `src/catalog.rs`, `src/procedures` — graph types, schemas, and a procedure that adds a graph.
- `src/session.rs`, `src/shell.rs` — what a client sets and runs, and the lines of a shell.
- `src/collections` — the concurrent maps and sets of other crates, with what they hold.
- `app` — files, the clock, floating point arithmetic, a terminal, and errors that can be shown.
- `tests` — the library at work.

What the library asks of the world it asks through closures. The contracts speak of whatever these
closures answer. What commits and checkpoints ask is remembered in its order, in
`src/storage/tp/outside.rs`, and their contracts say what is asked when. Laws that relate several operations are public proof functions whose names start
with `law_`.

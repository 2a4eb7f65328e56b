# eventflux_rust

The core of EventFlux, a lightweight complex-event-processing engine, written
in Verus: the library in `src/` is verified, its functions proved against
their contracts (accessors and small helpers carry none).

## Layout

- `src/engine/` — events and attribute values, stream configuration and its
  validation, the dependency graph of streams and the order in which they are
  initialized, stream initialization and the start/stop lifecycle of sources
  and sinks, source and sink mappers (JSON and CSV input, JSON output
  settings), extension factories, partition ids, in-memory tables, the
  logical and sequence join processors, and the string and CASE expression
  executors.
- `src/sql_compiler/` — the SQL preprocessor (WITH clauses, WINDOW clauses,
  time parameters), type inference, the catalog, and the assembly of an
  application from the catalog and its queries.
- `src/query_api/` — the definitions, expressions and queries the engine runs.
- `src/text.rs`, `src/number.rs`, `src/property_map.rs` — text, number and
  property-map helpers with their specifications.
- `app/` — ordinary Rust around the library.
- `tests/` — the tests, run against the compiled library.

## What is not here, and why

- The SQL front end (statement parsing and conversion to queries) is built on
  `sqlparser`, which is not available to this build; the preprocessor that
  runs before it is here.
- Floating-point values are held as their bit patterns. The parts that must
  compute with or print floats live in `app/`: the JSON sink writer, the
  texts of floating-point values in templates, the JSON sink mapper factory
  (the application registers it with the mapper registry), the comparison
  that a simple `CASE` hands over when operands of different numeric kinds
  meet, and the conversion of floating-point `substring` positions.
- The per-thread "full snapshot" request flag is thread-local state and lives
  in `app/`.

## Outside crates

`regex` (pattern functions and the WINDOW clause), `serde_json` (JSON input
in `src/`, JSON output in `app/`) and `chrono` (date parsing in JSON input).
Each call from `src/` goes through a wrapper whose contract states what the
crate's source shows.

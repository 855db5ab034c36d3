# tusker

PostgreSQL schema diffing, SQL migration bookkeeping and checked queries,
with the logic written in Verus and its contracts proved.

## Layout

- `src/` — the verified library.
  - `diff.rs`, `order.rs`, `collection.rs` — matching keyed objects, the
    order of keys, and insertion-ordered maps with unique keys.
  - `models/` — enums, domains, extensions, indexes, constraints, routines,
    triggers and views; the SQL that creates, alters and drops them; schemas
    built from catalog rows; the ordering of routines by dependency.
  - `inspection.rs` — a database's schemas and their difference.
  - `migration/` — migration file names and hashes, matching files with the
    migration log, and what the migration commands do.
  - `query/` — query metadata, SQL type markers and the checks between them.
  - `config.rs`, `cli.rs` — settings, the PostgreSQL client's connection
    parameters built from them, and command-line arguments.
  - `hash.rs` — SHA-512 digests from the `sha2` crate.
- `tests/` — tests of the library.
- `app/` — the `tusker` command line: configuration loading, database access,
  files and terminal output around the library.

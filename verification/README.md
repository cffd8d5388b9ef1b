# op_fast

A caching proxy for the 1Password command line tool (`op`), with its core
verified by Verus.

- `src/` is the verified library:
  - `template`: the template grammar (enclosed and unenclosed `op://`
    references, `$VAR`, `${VAR}`, `${VAR:-default}`), reference extraction,
    variable expansion and reference substitution;
  - `delegate`: the sentinel-framed batch template handed to `op inject` and
    the fail-closed parser of its answer, with the round-trip law;
  - `config`: time-to-live rules (globs through `globset`, durations through
    `humantime`);
  - `store`, `cache`, `storage`: metadata in LMDB (`heed`, one `Table` per
    environment, each operation in a transaction of its own) and secret
    values in the OS keyring (`keyring-core`, Linux keyutils). What the disk
    and the keyring answer is not stated; the decisions taken on those
    answers are verified functions that the store calls: the answer of a
    read (`stored_answer`, `cached_answer`), the rollback of a failed write
    (`rollback_needed`), the result of a deletion (`deleted_any`), the record
    written (`Store::record_for`, `Cache::entry_for`), what garbage collection
    deletes (`expired_references`, `expired_entry_references`), when it runs
    (`from_parts_at`) and how lookups split (`split_lookups`);
  - `command`: file modes, env files, reference collection, masking, age
    labels; `command::run`: the child's environment (env files over the
    shell) and the rendering of its values and arguments;
  - `text`, `time`: character-sequence helpers and the clock.
- `app/` is the command line program: argument parsing, files, processes,
  the environment.
- `tests/` runs the library, including a comparison of the template scanner
  with a regular-expression engine.

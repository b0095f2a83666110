# rust_myscript

Small shell helpers with a verified core.

- `src/` is the library, verified with Verus:
  - `text`: splitting, joining, de-duplicating and whitespace trimming of
    character sequences, with their laws (split/join round trip, idempotence).
  - `pathlist`: de-duplicating a colon-separated search path.
  - `sha1pair`: reading `sha1sum` lines and comparing pairs of them.
  - `history`: trimming a shell history and counting repeated commands.
  - `ranking`: the stable ranking of those counts.
  - `pattern`: regular expressions from the `regex` crate (trusted wrappers).
  - `record`, `sample`, `ghoss`: reading records field by field, and the
    logic of checking GitHub projects for newer versions.
  - `backup`: the commit message of a history backup.
- `app/` holds the command-line tools: argument parsing, files, the network,
  logging and serde.
- `tests/` runs the library on concrete values.

# kidur

A local-first outliner substrate, verified with Verus.

- `src/` is the verified library: node identifiers and timestamps, typed
  field values and the sorted field map of a node, supertag schemas and the
  registry that checks nodes against them, the append-only mutation log's
  sequencing, the node index rebuilt by replaying the log (and its listing
  order), the Loro-backed text document, and the reading of `key=value`
  field arguments.
- `app/` is the `kidur` command line program: file and directory access,
  JSON and TOML (de)serialization of the library's types, and reading
  floating-point numbers.
- `tests/` exercises the library.

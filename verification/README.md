# profile_json_refs

Value-level profiling of JSON and JSONL snapshots, read together with the
structural refs database that `dump-json-refs` writes. A run walks every
document, resolves each object's canonical path, site path and schema path
through the refs index, groups objects into shapes (field set plus observed
field types), counts fields per shape, profiles each field's values (a
summary of null and empty values, an exact distribution while it stays
small, else a HyperLogLog distinct count and Space-Saving heavy hitters),
keeps bounded object and value samples, and writes the facts to
`profile.sqlite`.

Layout:

- `src/` is the verified library (Verus). It holds the identities (value
  keys and hashes, canonical JSON, shape and field profile ids), the bounded
  samplers and sketches (priority sampling, Space-Saving, HyperLogLog
  registers, exact counting), the refs index and resolver, the input scan
  (a JSON text as one document, JSONL lines numbered by their index with
  blank lines skipped, each parsed by serde_json) and the source-path walk,
  the configuration (defaults, file sections, command-line overrides,
  validation) and the run's decisions (what each visited value changes and
  when pending rows are flushed).
- `app/` is the command around it: argument parsing, the YAML file, reading
  the input file or its lines and the refs database, writing SQLite, the perf log, and the
  floating-point HyperLogLog estimate.
- `tests/` exercises the library from outside.

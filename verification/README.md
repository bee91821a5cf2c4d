# mise_cache

The core of a self-hostable remote build cache, written in Verus.

- `src/` is the verified library: content digests and their algorithms, the
  typed action and metadata schemas, namespace authorization, the metadata
  store (an in-memory implementation and the decisions behind the PostgreSQL
  one), object and output-tree validation, blob upload checks, and the
  decisions each HTTP handler makes, including the order of the checks before
  an action result is published. Public functions carry exact contracts,
  except the request counters, whose values live in std atomics that have no
  value specification; the `law_*` proof functions state what holds across
  calls.
- Calls into `blake3`, `sha2`, `hex` and `serde_json` go through small trusted
  wrappers whose doc comments say what is assumed of them.
- `app/` is the unverified service around the library: routing, storage and
  database I/O, and serde forms of the protocol's types.
- `tests/` exercises the library on concrete values.

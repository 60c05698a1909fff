# scg_core

The control plane of a node, verified with Verus.

A node belongs to one realm. It starts and stops its services in the order of
their dependencies and commits a JSON state revision by revision. Every revision
is kept with a checksum over its realm, its number, its operation and its state;
a node opens only what its checksum vouches for, and knows from its last
checkpoint whether it was shut down cleanly.

## Layout

- `src/` is the library. Its functions are verified, but for the wrappers around
  `serde_json`, `sha2`, `chrono` and the standard library's paths and the three
  specifications of standard and `serde_json` functions: the contracts of those
  are trusted, and their doc comments say what they claim.
  - `realm`, `contract`, `error`: realms, the values a node shows, the errors.
  - `service`: the service graph and its start order.
  - `digest`, `json`, `clock`, `paths`, `text`: checksums, documents, time stamps,
    paths, strings.
  - `store`: the rows of a database, and the plans by which they change.
  - `lifecycle`: the node as a machine of requests, steps and answers.
  - `runtime`: a node over rows in memory.
  - `config`, `api`: settings and HTTP answers.
  - `laws`: what holds of the library as a whole.
- `app/` is the program: configuration file and environment, SQLite, HTTP.
- `tests/` runs the library.

SQLite is reached by the program alone. It reads the rows that a request looks
at, lets the library plan the request, and writes the planned changes in the same
transaction.

# sift

The verified core of a local code-search service: a resident daemon that
serves searches over a Unix socket, a loopback web console that observes and
drives it, and an evaluation harness that mines retrieval labels from git
history and scores retrieval against them.

- `src/` is the library, verified with Verus. It holds the wire protocol and
  its length-prefixed framing, the Hello exchange, the event ring that
  observers page through, the decisions of a daemon connection, the runtime
  paths and their permission rules, the console's request guard, history,
  jobs and registrations, and the label mining and scoring rules.
- `app/` is the plain Rust around it: the serde and bincode forms of the wire
  types, request logging, the runtime directory on disk, registration paths
  looked up on disk, and the floating-point summaries.
- `tests/` exercises the library from outside.

The library holds the decisions of the daemon's socket server, of the
console's HTTP server and its database, and of the git walk that mines
labels: each stage is a function from what was observed to what to do next.
The loops that perform them over async sockets, HTTP, SQL and a git
repository, and the search index itself, are not part of this crate.

# diff_core

The verified core of a git diff viewer that works on local repositories and,
through a small stdio agent started over SSH, on repositories of remote hosts.

- `src/` is the library, written in Verus: every function carries a contract
  and is proved against it.
  - `status.rs`, `repo_ops.rs`, `contents.rs`: how git's per-path flags become
    the status lists, what staging, discarding and committing do, both sides of
    a file for the diff view, and how work is cut into chunks for threads.
  - `paths.rs`: path components, the checks that keep operations inside the
    working tree, and which changes under `.git` matter to the watcher.
  - `json.rs`, `protocol.rs`, `wire.rs`: JSON values, JSON-RPC frames and the
    JSON form of the backend's results.
  - `agent.rs`, `remote.rs`: the two ends of the protocol (routing a request to
    a backend operation and answering it; building requests, matching
    responses to waiting calls, reading notifications).
  - `gui.rs`, `review.rs`: the desktop application's decisions (command line,
    windows, SSH hosts, launch repository) and the review bridge (checks,
    server answers, addresses, the event stream).
  - `text.rs`, `order.rs`: strings, decimal text and the byte order of strings.
- `app/` is ordinary Rust around the library: the agent's `main`, git access
  through `git2`, the file watcher, the SQLite store of recent repositories,
  HTTP to the review server, and the serde forms of the library's types.
- `tests/` exercises the library from outside.

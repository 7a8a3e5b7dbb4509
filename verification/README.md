# dify_agent_runtime

The runtime that runs shell jobs for an agent: a job server (HTTP API over
tmux sessions and an SQLite job table), the runner that each job executes
under, a PTY output sanitizer, home-directory snapshots, and the `dify` client
command line.

Layout:

- `src/` is the verified library. Each function carries a contract that Verus
  proves: the sanitizer's state machine, snapshot exclusion patterns, job
  status rules and SQL statements, output windows over the job log, timestamp
  formats, request routing and validation, tmux command building, the
  client's URL, JSON and file-name handling, archive path checks, and the
  laws that tie these together (round trips, chunked feeding, finished jobs
  staying finished, entries staying inside their target).
- `app/` is the program around it: process and file I/O, the HTTP server and
  client, SQLite, tmux, tar/zip/zstd streams, Landlock and the command-line
  parser. It hands plain values to the library and acts on what comes back.
- `tests/` runs the library on concrete values.

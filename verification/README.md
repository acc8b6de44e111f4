# TraceLens

Process-aware network observation: kernel and userspace (TLS) probes report
process, connection, DNS, TLS, plaintext and file events; the core correlates
them into process, connection and DNS tables, reassembles HTTP messages,
raises detection alerts, and serves timelines, connection sessions and a
behaviour graph.

## Layout

- `src/` — the verified library (Verus): the trackers, the HTTP parser and
  stream reassembly, the DNS and probe record decoders, the detection
  rules, the event store, timeline queries, the behaviour graph, the command
  lines, the API's routing, and the userspace probe plan (which libraries
  are attached, through which runtime, and which problems are reported),
  each with `requires`/`ensures` contracts proved by Verus.
- `tests/` — tests of the library through its public API.
- `app/` — the service around the library, none of it verified: reading
  `/proc`, running `nm` and bpftime, the probe orchestration that starts
  loader processes and attaches libbpf probes following the library's plan,
  SQLite, the TCP listener and `main`.

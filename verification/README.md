# dns_agent

A DNS proxy agent and its control plane. The agent forwards DNS queries, registers with the
control plane, claims leases for DNS, HTTP, TCP, ping and traceroute checks, carries them out
and reports what it observed. The control plane hands out the leases over HTTP and keeps its
state in a database.

- `src/` is the library, verified with Verus: packets and messages, the resolver's decisions,
  adaptive concurrency windows, lease tracking, timers, rate limits, the protocol's state
  machines, and what the workers send, decide and report. Time is a number of nanoseconds that
  callers hand in. Fractions (token buckets, backoff factors, window sizes) are rounded as
  double-precision numbers are, in integer arithmetic. Contracts are stated over the views of
  the types, and the laws of the library are the public proof functions whose names begin with
  `law_`.
- `app/` is the program around it: sockets, HTTP, the database, tasks and timers, and the JSON
  form of the messages, in which times and shares are floating-point numbers.
- `tests/` runs the library on concrete values.

The program runs as the agent, or as the control plane if its first argument is
`control-plane`. The control plane reads its SQL migrations from `./infra/migrations`.

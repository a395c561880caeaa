# rts_wiki

A real-time monitor for the live Wikipedia edit stream, with a core that is verified with Verus.

Edits arrive on two bounded queues, one for humans and one for bots. A full queue drops its
oldest packet. Humans are served first, and bots not at all while the jitter of recent latencies
is above a threshold. Every edit has a deadline of 2 ms; its scheduling drift, latency and jitter
are recorded and summed up at the end of a run as averages, maxima and tail percentiles (p50, p90,
p99). A leaderboard counts the edits of each domain.

- `src/` is the verified library. It takes plain values, gives plain values back, and gives the
  lines to be printed rather than printing them.
- `app/` connects to the stream, parses the events, and runs the pipelines: asynchronous on Tokio,
  or on threads.
- `tests/` runs the library on concrete values.

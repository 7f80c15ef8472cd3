# harnesssphere

A watcher for an agent stack: host, own-process, watched-process, endpoint-probe,
container (cgroup v2), workspace-session and learning-artefact collectors, a supervisor
that isolates failures by criticality, and stdout or OTLP/gRPC export.

- `src/` is the verified library. It holds the signal model, the supervision policy
  (circuit breaker, criticality, backoff), the supervisor's decisions as state machines
  (start, collect outcome, registry, control loop, batching drain), every parser
  (cgroup files, JSONL transcripts, knowledge graphs, Prometheus exposition, HTTP
  responses and URLs), workspace discovery and reconciliation, enrichment, the flattening
  of pushed OTLP requests, and the grouping that exporters apply. Laws that span several
  calls are public proof functions named `law_*`.
- `app/` is the binary around it: configuration loading, the tokio tasks and channels,
  OS/file/network reads, the OTLP encoders and the gRPC receiver.
- `tests/` exercises the library on concrete values.

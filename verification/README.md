# dubbo

The decision logic of a Dubbo-style RPC framework, written in Verus and
proved against its contracts.

- `src/` is the verified library: service URLs and their parameter tables,
  condition and tag routing (rule parsing, matching, router chains, the
  router manager), load balancing (random, weighted, round robin, least
  active), cluster fail-over, extension loading and caching, request
  metadata, call deadlines and filters, the replayable request body, the
  readiness of shared invokers, directories, and the framework's
  configuration of exported services.
- `tests/` runs the library on concrete inputs.
- `app/` is the program around it: reading the YAML configuration, the
  call context of the current thread, HTTP header conversion, the clock and
  logging.

Outside crates are reached through a few trusted wrappers: `http` (URI
parsing), `regex` (pattern matching and rule tokenizing), `rand` (random
draws) and the standard library's `to_lowercase` and integer parsing.

# truncation_aware

A load-balancing policy for a model gateway, with its logic proved in Verus.

The workers of each model are partitioned into a sticky pool, routed by an embedded cache-aware
policy, and a truncation pool of size K for requests whose conversation history was truncated.
K tracks the share of truncated requests, one step per tick; membership is rendezvous-hashed over
worker URLs, so that few workers move when the worker set or K changes, and router replicas agree
without coordination.

- `src/` is the library. Each function states what it does in its contract; the public proof
  functions named `law_...` state what holds across functions.
- `tests/` runs the library.
- `app/` is what a gateway puts around it: locks, clocks, metrics, floating-point share
  arithmetic, the background controller, and the sampler of process metrics.

The library calls `dashmap` and the standard library's `DefaultHasher` through a few trusted
functions, each with the contract that it is trusted to meet.

# navcore

Turn-by-turn navigation core. The library in `src/` holds the navigator's
decisions and bookkeeping, verified with Verus:

- `types` — route and error types, the structural route check and the
  check of a route handed to a navigator (final zero-length arrival step);
- `geo` — distance lookups along a route on order-preserving distance keys;
- `navigator` — `TripTracker`: stale-fix guard, off-route hysteresis,
  rate-limited reroute requests, step advancement and arrival, with the
  laws these decisions obey;
- `filter` — `FixGate`: which fixes the location filter admits;
- `matcher` — the ranked candidate list and the bounded window of the map
  matcher, both in fixed storage;
- `fixtures`, `ffi` — fixture checks and binding helpers.

`app/` is the host side: floating-point geometry, the Kalman filter, HMM
scoring, serde, files and the binding records, calling the library for
every decision.

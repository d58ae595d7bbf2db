# Watchdog

Watchdog is a privacy-first web analytics server: a JavaScript beacon posts
events, and Watchdog aggregates them into bounded Prometheus metrics. It keeps
no raw events and no visitor identifiers; unique visitors are estimated with a
salted HyperLogLog whose salt rotates every day (or hour).

## Layout

- `src/` is the verified library (Verus):
  - `config.rs`: configuration shape, defaults, overrides and validation;
  - `event.rs`: beacon events, their normalization, validation and custom
    properties;
  - `normalize.rs`: path normalization and referrer classification;
  - `metrics.rs`: label sanitization, label sets, the shared series budget
    and the recorder that decides which counter series each observation
    increments;
  - `registry.rs`: bounded registries of label values;
  - `ratelimit.rs`: the per-address fixed-window rate limiter;
  - `uniques.rs`: salt periods, salts, visitor hashing and the estimator;
  - `app.rs`: request classification, client address resolution, the
    ingestion pipeline and the metrics endpoint's admission;
  - `net.rs`, `text.rs`, `limits.rs`: addresses, text helpers and bounds.
- `app/` is the server around it: command line, configuration loading, the
  HTTP server, the Prometheus registry the library's increments are applied
  to, and persistence of the estimator.
- `tests/` exercises the library.

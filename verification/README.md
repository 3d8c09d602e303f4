# re-indicators-calculation-service

A Verus-verified library for the RE indicators calculation service, with a thin
HTTP front end.

- `src/` is the verified library: artifact URL resolution from the version
  template, runtime configuration from environment values, the interpretation of
  replies from `hex-core-service` and the artifact servers, the validation
  summaries, the decision whether scores are computed, the loading of indicator
  configurations, parameters, questions and answer options from schema classes
  (with union expansion), and the selection of the answers, scores and weights
  that a result is computed from. `text.rs` holds the character-level string
  operations (trimming, replacement, number parsing) with their specifications.
- `app/` is the service itself: the axum routes, the reqwest calls, reading the
  YAML specification from disk, and the `f64` arithmetic of the scores.
- `tests/` exercises the library on concrete values.

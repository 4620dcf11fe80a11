# oxllm-core

The routing core of an OpenAI-compatible LLM gateway, written in Verus:
tiered fallback chains, per-provider circuit breakers with exponential
backoff and a single HalfOpen probe, rate-limit windows, idle-based penalty
decay, and the decisions taken while a chat or embeddings request is routed.

Times are milliseconds on the gateway's monotonic clock.

## Layout

- `src/state.rs` — provider health state, the routing table, candidate resolution.
- `src/router.rs` — the adaptive priority strategy (`select`, `feedback`), stated
  over `select_step`, `select_rec` and `feedback_spec`.
- `src/laws.rs` — properties across calls: single probe, disabled providers,
  priority order, healing, tripping, backoff doubling, rate limits, recovery,
  decay, admin actions.
- `src/gateway.rs` — a routed request as a session: validation, the next
  attempt, and the recording of each attempt's outcome.
- `src/status.rs` — `/v1/models` and `/status` reports.
- `src/admin.rs` — offline, online, reset.
- `src/telemetry.rs` — telemetry events and what the exporter records.
- `src/text.rs` — decimal text, `Retry-After`, `traceparent`.
- `src/codec.rs` — the calls into `serde_json`, `reqwest::Url` and `hex`.
- `app/` — Axum handlers, the HTTP exchange, the OTLP exporter.

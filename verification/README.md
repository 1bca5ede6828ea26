# agent_tool_middleware

A middleware pipeline for LLM agent tool calls, verified with Verus.

Each `Middleware` has a `pre` hook that rewrites a call's arguments and a
`post` hook that rewrites its result. A `MiddlewarePipeline` runs the `pre`
hooks in registration order and the `post` hooks in reverse order (the onion
model), and records every call.

- `src/json.rs`: `JsonValue`, the payload type, with its model `JsonModel`
  (objects as maps from keys to models) and `JsonObject`, whose keys are
  distinct by type invariant.
- `src/middleware.rs`: the `Middleware` trait, `IntoLayer` (how a middleware
  boxes itself into a pipeline's `Layer`), `InjectFieldMiddleware`,
  `RedactFieldMiddleware`, and laws about what they do to a payload. A
  middleware states its name as `spec_name`, implements `name` and both hooks,
  and implements `into_layer` (`Layer { middleware: Box::new(self) }`).
- `src/log.rs`: `CallRecord` and `LogMiddleware`, whose log lives behind an
  `Arc<Mutex<..>>` shared by all its handles. Its `post` hook sees only the
  result, so its records carry `null` arguments; `entries` returns a copy of
  the log.
- `src/pipeline.rs`: `MiddlewarePipeline` and the onion-model laws.
- `app/lib.rs`: conversion between `serde_json::Value` and `JsonValue`, and a
  run of a pipeline on `serde_json::Value` payloads.

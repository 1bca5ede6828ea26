use agent_tool_middleware::{
    CallRecord, InjectFieldMiddleware, JsonObject, JsonValue, LogMiddleware, Middleware,
    MiddlewarePipeline, RedactFieldMiddleware,
};

fn obj(entries: Vec<(&str, JsonValue)>) -> JsonValue {
    let mut o = JsonObject::new();
    for (k, v) in entries {
        o.insert(k.to_string(), v);
    }
    JsonValue::Object(o)
}

fn s(text: &str) -> JsonValue {
    JsonValue::String(text.to_string())
}

fn n(i: i64) -> JsonValue {
    JsonValue::Number(serde_json::Number::from(i))
}

fn b(v: bool) -> JsonValue {
    JsonValue::Bool(v)
}

#[test]
fn no_middleware_passthrough() {
    let mut p = MiddlewarePipeline::new();
    let (a, r) = p.run("fn", obj(vec![("q", n(1))]), obj(vec![("ok", b(true))]));
    assert_eq!(a.get("q"), Some(&n(1)));
    assert_eq!(r.get("ok"), Some(&b(true)));
}

#[test]
fn inject_field_pre() {
    let mut p = MiddlewarePipeline::new();
    p.add(InjectFieldMiddleware::new("version", s("1.0")));
    let (a, _) = p.run("fn", obj(vec![("q", s("x"))]), obj(vec![]));
    assert_eq!(a.get("version"), Some(&s("1.0")));
}

#[test]
fn inject_field_preserves_existing() {
    let mut p = MiddlewarePipeline::new();
    p.add(InjectFieldMiddleware::new("v", n(99)));
    let (a, _) = p.run("fn", obj(vec![("q", s("x"))]), obj(vec![]));
    assert_eq!(a.get("q"), Some(&s("x")));
    assert_eq!(a.get("v"), Some(&n(99)));
}

#[test]
fn call_log_recorded() {
    let mut p = MiddlewarePipeline::new();
    p.run("search", obj(vec![]), obj(vec![]));
    p.run("fetch", obj(vec![]), obj(vec![]));
    assert_eq!(p.call_count(), 2);
    assert_eq!(p.call_log()[0].tool, "search");
}

#[test]
fn middleware_count() {
    let mut p = MiddlewarePipeline::new();
    p.add(InjectFieldMiddleware::new("x", n(1)));
    p.add(InjectFieldMiddleware::new("y", n(2)));
    assert_eq!(p.middleware_count(), 2);
}

#[test]
fn multiple_inject_fields() {
    let mut p = MiddlewarePipeline::new();
    p.add(InjectFieldMiddleware::new("a", n(1)));
    p.add(InjectFieldMiddleware::new("b", n(2)));
    let (args, _) = p.run("fn", obj(vec![]), obj(vec![]));
    assert_eq!(args.get("a"), Some(&n(1)));
    assert_eq!(args.get("b"), Some(&n(2)));
}

#[test]
fn log_middleware_name() {
    let m = LogMiddleware::new();
    assert_eq!(m.name(), "log");
}

#[test]
fn inject_field_name() {
    let m = InjectFieldMiddleware::new("x", n(1));
    assert_eq!(m.name(), "inject_field");
}

#[test]
fn call_record_fields() {
    let mut p = MiddlewarePipeline::new();
    p.run("my_tool", obj(vec![("arg", s("val"))]), obj(vec![("result", n(42))]));
    let rec = &p.call_log()[0];
    assert_eq!(rec.tool, "my_tool");
    assert_eq!(rec.result.get("result"), Some(&n(42)));
}

#[test]
fn non_object_args_unchanged() {
    let mut p = MiddlewarePipeline::new();
    p.add(InjectFieldMiddleware::new("x", n(1)));
    let (a, _) = p.run("fn", JsonValue::Array(vec![n(1), n(2), n(3)]), obj(vec![]));
    // Array isn't touched by inject
    assert_eq!(a, JsonValue::Array(vec![n(1), n(2), n(3)]));
}

#[test]
fn empty_pipeline_no_overhead() {
    let mut p = MiddlewarePipeline::new();
    let (a, r) = p.run("t", s("x"), s("y"));
    assert_eq!(a, s("x"));
    assert_eq!(r, s("y"));
}

#[test]
fn log_middleware_actually_records() {
    let logger = LogMiddleware::new();
    assert!(logger.is_empty());

    let mut p = MiddlewarePipeline::new();
    p.add(logger.handle());
    p.run("alpha", obj(vec![]), obj(vec![("ok", n(1))]));
    p.run("beta", obj(vec![]), obj(vec![("ok", n(2))]));

    assert_eq!(logger.len(), 2);
    let entries = logger.entries();
    assert_eq!(entries[0].tool, "alpha");
    assert_eq!(entries[1].tool, "beta");
    assert_eq!(entries[1].result.get("ok"), Some(&n(2)));
}

#[test]
fn log_middleware_clear() {
    let logger = LogMiddleware::new();
    let mut p = MiddlewarePipeline::new();
    p.add(logger.handle());
    p.run("x", obj(vec![]), obj(vec![]));
    assert_eq!(logger.len(), 1);
    logger.clear();
    assert!(logger.is_empty());
}

#[test]
fn redact_field_post() {
    let mut p = MiddlewarePipeline::new();
    p.add(RedactFieldMiddleware::new("token"));
    let (_, r) = p.run("auth", obj(vec![]), obj(vec![("token", s("secret")), ("ok", b(true))]));
    assert_eq!(r.get("token"), Some(&s("[redacted]")));
    assert_eq!(r.get("ok"), Some(&b(true)));
}

#[test]
fn redact_field_absent_is_noop() {
    let mut p = MiddlewarePipeline::new();
    p.add(RedactFieldMiddleware::new("token"));
    let (_, r) = p.run("auth", obj(vec![]), obj(vec![("ok", b(true))]));
    assert!(r.get("token").is_none());
    assert_eq!(r.get("ok"), Some(&b(true)));
}

#[test]
fn redact_field_custom_placeholder() {
    let mut p = MiddlewarePipeline::new();
    p.add(RedactFieldMiddleware::with_placeholder("pw", JsonValue::Null));
    let (_, r) = p.run("login", obj(vec![]), obj(vec![("pw", s("hunter2"))]));
    assert_eq!(r.get("pw"), Some(&JsonValue::Null));
}

#[test]
fn redact_non_object_result_unchanged() {
    let mut p = MiddlewarePipeline::new();
    p.add(RedactFieldMiddleware::new("token"));
    let (_, r) = p.run("t", obj(vec![]), s("plain string"));
    assert_eq!(r, s("plain string"));
}

#[test]
fn middleware_names_in_order() {
    let mut p = MiddlewarePipeline::new();
    p.add(InjectFieldMiddleware::new("v", n(1)));
    p.add(RedactFieldMiddleware::new("token"));
    p.add(LogMiddleware::new());
    assert_eq!(p.middleware_names(), vec!["inject_field", "redact_field", "log"]);
}

#[test]
fn post_hooks_run_in_reverse_order() {
    let mut p = MiddlewarePipeline::new();
    p.add(InjectFieldMiddleware::new("injected", b(true)));
    p.add(RedactFieldMiddleware::new("password"));
    let (args, result) = p.run(
        "op",
        obj(vec![("user", s("alice"))]),
        obj(vec![("password", s("p")), ("status", s("ok"))]),
    );
    assert_eq!(args.get("injected"), Some(&b(true)));
    assert_eq!(args.get("user"), Some(&s("alice")));
    assert_eq!(result.get("password"), Some(&s("[redacted]")));
    assert_eq!(result.get("status"), Some(&s("ok")));
}

#[test]
fn pipeline_clear_log() {
    let mut p = MiddlewarePipeline::new();
    p.run("a", obj(vec![]), obj(vec![]));
    p.run("b", obj(vec![]), obj(vec![]));
    assert_eq!(p.call_count(), 2);
    p.clear_log();
    assert_eq!(p.call_count(), 0);
    // Middleware survive a log clear.
    assert_eq!(p.middleware_count(), 0);
}

#[test]
fn log_handle_shares_storage() {
    let logger = LogMiddleware::new();
    let h = logger.handle();
    let mut p = MiddlewarePipeline::new();
    p.add(h);
    p.run("x", obj(vec![]), obj(vec![]));
    // Both the original and the moved handle observe the same record.
    assert_eq!(logger.len(), 1);
}

#[test]
fn call_record_clone_keeps_fields() {
    let rec = CallRecord { tool: "t".to_string(), args: obj(vec![("a", n(1))]), result: s("r") };
    assert_eq!(rec.clone(), rec);
}

use agent_tool_middleware::{
    InjectFieldMiddleware, JsonObject, JsonValue, LogMiddleware, Middleware, MiddlewarePipeline,
    RedactFieldMiddleware,
};

fn object(entries: Vec<(&str, JsonValue)>) -> JsonValue {
    let mut o = JsonObject::new();
    for (k, v) in entries {
        o.insert(k.to_string(), v);
    }
    JsonValue::Object(o)
}

fn text(t: &str) -> JsonValue {
    JsonValue::String(t.to_string())
}

fn num(i: i64) -> JsonValue {
    JsonValue::Number(serde_json::Number::from(i))
}

#[test]
fn later_pre_hook_sees_earlier_output() {
    let mut p = MiddlewarePipeline::new();
    p.add(InjectFieldMiddleware::new("k", num(1)));
    p.add(InjectFieldMiddleware::new("k", num(2)));
    let (a, _) = p.run("t", object(vec![]), object(vec![]));
    assert_eq!(a.get("k"), Some(&num(2)));
}

#[test]
fn later_post_hook_runs_first() {
    let mut p = MiddlewarePipeline::new();
    p.add(RedactFieldMiddleware::new("token"));
    p.add(RedactFieldMiddleware::with_placeholder("token", text("X")));
    let (_, r) = p.run("t", object(vec![]), object(vec![("token", text("s"))]));
    assert_eq!(r.get("token"), Some(&text("[redacted]")));
}

#[test]
fn inject_overwrites_existing_field() {
    let m = InjectFieldMiddleware::new("v", num(7));
    let out = m.pre("t", object(vec![("v", num(1)), ("w", num(2))]));
    assert_eq!(out.get("v"), Some(&num(7)));
    assert_eq!(out.get("w"), Some(&num(2)));
    assert_eq!(out.as_object().unwrap().len(), 2);
}

#[test]
fn inject_leaves_result_alone() {
    let m = InjectFieldMiddleware::new("v", num(7));
    assert_eq!(m.post("t", object(vec![])), object(vec![]));
}

#[test]
fn redact_leaves_args_alone() {
    let m = RedactFieldMiddleware::new("token");
    let args = object(vec![("token", text("s"))]);
    assert_eq!(m.pre("t", object(vec![("token", text("s"))])), args);
    assert_eq!(m.name(), "redact_field");
}

#[test]
fn empty_pipeline_passes_non_objects() {
    let mut p = MiddlewarePipeline::default();
    let (a, r) = p.run("t", JsonValue::Null, JsonValue::Bool(false));
    assert_eq!(a, JsonValue::Null);
    assert_eq!(r, JsonValue::Bool(false));
}

#[test]
fn record_holds_final_args_and_result() {
    let mut p = MiddlewarePipeline::new();
    p.add(InjectFieldMiddleware::new("x", num(1)));
    p.add(RedactFieldMiddleware::new("secret"));
    let (a, r) = p.run("t", object(vec![]), object(vec![("secret", text("s"))]));
    let rec = &p.call_log()[0];
    assert_eq!(rec.args, a);
    assert_eq!(rec.result, r);
    assert_eq!(rec.args.get("x"), Some(&num(1)));
    assert_eq!(rec.result.get("secret"), Some(&text("[redacted]")));
}

#[test]
fn log_records_null_args_and_result() {
    let logger = LogMiddleware::default();
    let mut p = MiddlewarePipeline::new();
    p.add(logger.clone());
    p.run("t", object(vec![("a", num(1))]), text("done"));
    let entries = logger.entries();
    assert_eq!(entries.len(), 1);
    assert_eq!(entries[0].args, JsonValue::Null);
    assert_eq!(entries[0].result, text("done"));
}

#[test]
fn object_insert_keeps_position_and_returns_previous() {
    let mut o = JsonObject::new();
    assert_eq!(o.insert("a".to_string(), num(1)), None);
    assert_eq!(o.insert("b".to_string(), num(2)), None);
    assert_eq!(o.insert("a".to_string(), num(3)), Some(num(1)));
    assert_eq!(o.len(), 2);
    assert_eq!(o.entries()[0], ("a".to_string(), num(3)));
    assert!(o.contains_key("b"));
    assert!(!o.contains_key("c"));
    assert_eq!(o.get("c"), None);
}

#[test]
fn clone_copies_nested_values() {
    let v = object(vec![
        ("list", JsonValue::Array(vec![num(1), text("x"), object(vec![("n", JsonValue::Null)])])),
        ("flag", JsonValue::Bool(true)),
    ]);
    assert_eq!(v.clone(), v);
}

#[test]
fn get_on_non_object_is_none() {
    assert_eq!(text("x").get("x"), None);
    assert!(!text("x").is_object());
    assert!(object(vec![]).is_object());
}

#[test]
fn object_equality_ignores_entry_order() {
    let a = object(vec![("a", num(1)), ("b", text("x"))]);
    let b = object(vec![("b", text("x")), ("a", num(1))]);
    assert_eq!(a, b);
    assert_ne!(a, object(vec![("a", num(1)), ("b", text("y"))]));
    assert_ne!(a, object(vec![("a", num(1))]));
}

#[test]
fn number_equality_follows_serde_json() {
    let pos = JsonValue::Number(serde_json::Number::from_f64(0.0).unwrap());
    let neg = JsonValue::Number(serde_json::Number::from_f64(-0.0).unwrap());
    assert_eq!(pos, neg);
    assert_ne!(num(1), num(2));
    assert_ne!(num(1), text("1"));
}

#[test]
fn names_of_added_middleware_in_order() {
    let mut p = MiddlewarePipeline::new();
    p.add(LogMiddleware::new());
    p.add(InjectFieldMiddleware::new("v", num(1)));
    let before = p.middleware_names().iter().map(|s| s.to_string()).collect::<Vec<_>>();
    p.run("t", object(vec![]), object(vec![]));
    p.clear_log();
    assert_eq!(p.middleware_names(), before);
    assert_eq!(before, vec!["log".to_string(), "inject_field".to_string()]);
}

//! The middleware interface and the middleware that rewrite payloads.
use vstd::prelude::*;

use crate::json::{has_field, JsonModel, JsonValue};

verus! {

/// A transformation applied around a tool call.
///
/// `pre` rewrites the call's arguments before the tool runs, `post` rewrites
/// its result afterwards. Every implementation states, through `spec_name`,
/// the one identifier that `name` returns. It may say, through `pre_allows`
/// and `post_allows`, what its hooks give for which inputs; one that says
/// nothing there allows anything. The built-in middleware say exactly what
/// they do.
pub trait Middleware {
    /// The identifier that `name` always returns.
    spec fn spec_name(&self) -> Seq<char>;

    /// Whether `pre` may turn `args` into `out` on a call of the tool `tool`.
    open spec fn pre_allows(&self, tool: Seq<char>, args: JsonValue, out: JsonValue) -> bool {
        true
    }

    /// Whether `post` may turn `result` into `out` on a call of the tool `tool`.
    open spec fn post_allows(&self, tool: Seq<char>, result: JsonValue, out: JsonValue) -> bool {
        true
    }

    /// A short, stable identifier for this middleware.
    fn name(&self) -> (r: &str)
        ensures
            r@ == self.spec_name(),
    ;

    /// Transforms the arguments before the tool is invoked.
    fn pre(&self, tool: &str, args: JsonValue) -> (out: JsonValue)
        ensures
            self.pre_allows(tool@, args, out),
    ;

    /// Transforms the result after the tool has been invoked.
    fn post(&self, tool: &str, result: JsonValue) -> (out: JsonValue)
        ensures
            self.post_allows(tool@, result, out),
    ;
}

/// One middleware of a pipeline, boxed so that middleware of any type can
/// stand in one stack.
pub struct Layer {
    /// The middleware.
    pub middleware: Box<dyn Middleware>,
}

/// `l` holds a middleware that names itself and rewrites payloads as `m` does.
pub open spec fn layer_of<M: Middleware>(l: Layer, m: M) -> bool {
    &&& l.middleware.spec_name() == m.spec_name()
    &&& forall|t: Seq<char>, a: JsonValue, o: JsonValue| #[trigger] l.middleware.pre_allows(t, a, o) == m.pre_allows(t, a, o)
    &&& forall|t: Seq<char>, a: JsonValue, o: JsonValue| #[trigger] l.middleware.post_allows(t, a, o) == m.post_allows(t, a, o)
}

/// Middleware that can be put into a pipeline.
///
/// Each implementation boxes itself: `Layer { middleware: Box::new(self) }`.
pub trait IntoLayer: Middleware + Sized {
    /// This middleware as a layer of a pipeline.
    fn into_layer(self) -> (l: Layer)
        ensures
            layer_of(l, self),
    ;
}

/// `v` with `key` bound to `val` when `v` is an object; any other value as it is.
pub open spec fn with_field(v: JsonModel, key: Seq<char>, val: JsonModel) -> JsonModel {
    match v {
        JsonModel::Object(m) => JsonModel::Object(m.insert(key, val)),
        _ => v,
    }
}

/// `v` with the value of `key` replaced by `placeholder` when `v` is an object
/// that has `key`; any other value as it is.
pub open spec fn redacted(v: JsonModel, key: Seq<char>, placeholder: JsonModel) -> JsonModel {
    match v {
        JsonModel::Object(m) => if m.contains_key(key) {
            JsonModel::Object(m.insert(key, placeholder))
        } else {
            v
        },
        _ => v,
    }
}

/// Middleware that inserts (or overwrites) one field on every object-shaped
/// argument payload; other payloads pass through untouched.
pub struct InjectFieldMiddleware {
    /// The field key to insert.
    pub field: String,
    /// The value to insert under `field`.
    pub value: JsonValue,
}

impl InjectFieldMiddleware {
    /// A middleware that injects `field = value` into argument objects.
    pub fn new(field: &str, value: JsonValue) -> (m: Self)
        ensures
            m.field@ == field@,
            m.value == value,
    {
        InjectFieldMiddleware { field: field.to_owned(), value }
    }
}

impl Middleware for InjectFieldMiddleware {
    open spec fn spec_name(&self) -> Seq<char> {
        "inject_field"@
    }

    /// The arguments with the field bound to the value when they are an
    /// object; unchanged otherwise.
    open spec fn pre_allows(&self, tool: Seq<char>, args: JsonValue, out: JsonValue) -> bool {
        &&& out@ == with_field(args@, self.field@, self.value@)
        &&& !(args is Object) ==> out == args
    }

    /// Results pass through unchanged.
    open spec fn post_allows(&self, tool: Seq<char>, result: JsonValue, out: JsonValue) -> bool {
        out == result
    }

    fn name(&self) -> (r: &str) {
        "inject_field"
    }

    fn pre(&self, tool: &str, args: JsonValue) -> (out: JsonValue) {
        match args {
            JsonValue::Object(mut o) => {
                let key = self.field.clone();
                let val = self.value.clone();
                o.insert(key, val);
                JsonValue::Object(o)
            },
            other => other,
        }
    }

    fn post(&self, tool: &str, result: JsonValue) -> (out: JsonValue) {
        result
    }
}

/// Middleware that replaces the value of a named field of an object-shaped
/// result with a placeholder; absent fields and other shapes pass through.
pub struct RedactFieldMiddleware {
    /// The field key to redact when present.
    pub field: String,
    /// The value written in place of the redacted field.
    pub placeholder: JsonValue,
}

/// The text that `RedactFieldMiddleware::new` writes in place of a redacted field.
pub open spec fn redaction_marker() -> Seq<char> {
    "[redacted]"@
}

impl RedactFieldMiddleware {
    /// Redacts `field`, replacing it with the string `"[redacted]"`.
    pub fn new(field: &str) -> (m: Self)
        ensures
            m.field@ == field@,
            m.placeholder@ == JsonModel::String(redaction_marker()),
    {
        let marker = "[redacted]".to_owned();
        RedactFieldMiddleware { field: field.to_owned(), placeholder: JsonValue::String(marker) }
    }

    /// Redacts `field`, replacing it with `placeholder`.
    pub fn with_placeholder(field: &str, placeholder: JsonValue) -> (m: Self)
        ensures
            m.field@ == field@,
            m.placeholder == placeholder,
    {
        RedactFieldMiddleware { field: field.to_owned(), placeholder }
    }
}

impl IntoLayer for InjectFieldMiddleware {
    fn into_layer(self) -> (l: Layer) {
        Layer { middleware: Box::new(self) }
    }
}

impl Middleware for RedactFieldMiddleware {
    open spec fn spec_name(&self) -> Seq<char> {
        "redact_field"@
    }

    /// Arguments pass through unchanged.
    open spec fn pre_allows(&self, tool: Seq<char>, args: JsonValue, out: JsonValue) -> bool {
        out == args
    }

    /// The result with the field's value replaced by the placeholder when the
    /// result is an object that has the field; unchanged otherwise.
    open spec fn post_allows(&self, tool: Seq<char>, result: JsonValue, out: JsonValue) -> bool {
        &&& out@ == redacted(result@, self.field@, self.placeholder@)
        &&& !has_field(result@, self.field@) ==> out == result
    }

    fn name(&self) -> (r: &str) {
        "redact_field"
    }

    fn pre(&self, tool: &str, args: JsonValue) -> (out: JsonValue) {
        args
    }

    fn post(&self, tool: &str, result: JsonValue) -> (out: JsonValue) {
        match result {
            JsonValue::Object(mut o) => {
                if o.contains_key(self.field.as_str()) {
                    let key = self.field.clone();
                    let val = self.placeholder.clone();
                    o.insert(key, val);
                }
                JsonValue::Object(o)
            },
            other => other,
        }
    }
}


impl IntoLayer for RedactFieldMiddleware {
    fn into_layer(self) -> (l: Layer) {
        Layer { middleware: Box::new(self) }
    }
}

/// Injecting into an object binds the field to the value and keeps every
/// other field with its value; any other payload stays as it is.
pub proof fn law_inject_sets_field_and_keeps_the_rest(v: JsonModel, key: Seq<char>, val: JsonModel)
    ensures
        v matches JsonModel::Object(m) ==> (with_field(v, key, val) matches JsonModel::Object(m2) && {
            &&& m2.contains_key(key)
            &&& m2[key] == val
            &&& forall|k: Seq<char>| k != key ==> (#[trigger] m2.contains_key(k) <==> m.contains_key(k))
            &&& forall|k: Seq<char>| k != key && m.contains_key(k) ==> #[trigger] m2[k] == m[k]
        }),
        !(v is Object) ==> with_field(v, key, val) == v,
{
}

/// Redacting an object that has the field replaces that field's value with
/// the placeholder and keeps every other field; a payload that is not an
/// object with the field stays as it is.
pub proof fn law_redact_replaces_only_a_present_field(v: JsonModel, key: Seq<char>, placeholder: JsonModel)
    ensures
        has_field(v, key) ==> (v matches JsonModel::Object(m) && redacted(v, key, placeholder) matches JsonModel::Object(m2) && {
            &&& m2.dom() == m.dom()
            &&& m2[key] == placeholder
            &&& forall|k: Seq<char>| k != key && m.contains_key(k) ==> #[trigger] m2[k] == m[k]
        }),
        !has_field(v, key) ==> redacted(v, key, placeholder) == v,
{
    if let JsonModel::Object(m) = v {
        if m.contains_key(key) {
            assert(m.insert(key, placeholder).dom() =~= m.dom());
        }
    }
}

/// `pre` of an `InjectFieldMiddleware` on an object binds the field to the
/// value and keeps every other key with its value; any other payload comes
/// back as it is.
pub proof fn law_inject_pre(m: InjectFieldMiddleware, tool: Seq<char>, args: JsonValue, out: JsonValue)
    requires
        m.pre_allows(tool, args, out),
    ensures
        args@ matches JsonModel::Object(fields) ==> out@ == JsonModel::Object(fields.insert(m.field@, m.value@)),
        !(args is Object) ==> out == args,
{
}

/// `post` of a `RedactFieldMiddleware` on an object that has the field,
/// whatever value the field holds (a string, a number, `null`, an object, an
/// array), binds the field to the placeholder and keeps every other key with
/// its value; an object without the key, or a result that is not an object,
/// comes back as it is.
pub proof fn law_redact_post(m: RedactFieldMiddleware, tool: Seq<char>, result: JsonValue, out: JsonValue)
    requires
        m.post_allows(tool, result, out),
    ensures
        result@ matches JsonModel::Object(fields) ==> (fields.contains_key(m.field@) ==> {
            &&& out@ == JsonModel::Object(fields.insert(m.field@, m.placeholder@))
            &&& out@ matches JsonModel::Object(after) && after.dom() == fields.dom()
        }),
        result@ matches JsonModel::Object(fields) ==> (!fields.contains_key(m.field@) ==> out == result),
        !(result is Object) ==> out == result,
{
    if let JsonModel::Object(fields) = result@ {
        if fields.contains_key(m.field@) {
            assert(fields.insert(m.field@, m.placeholder@).dom() =~= fields.dom());
        }
    }
}

} // verus!

//! A middleware pipeline for tool calls made by LLM agents.
//!
//! Middleware compose in the onion model: `pre` hooks rewrite a call's
//! arguments in registration order, `post` hooks rewrite its result in
//! reverse order, and every call is recorded.
pub mod json;
pub mod log;
pub mod middleware;
pub mod pipeline;

pub use json::{JsonModel, JsonObject, JsonValue};
pub use log::{CallRecord, LogMiddleware};
pub use middleware::{InjectFieldMiddleware, IntoLayer, Layer, Middleware, RedactFieldMiddleware};
pub use pipeline::MiddlewarePipeline;

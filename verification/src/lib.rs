//! A verified scaffold for a declarative-UI translation pipeline: source text
//! is evaluated into a declarative source tree, resolved node by node into a
//! widget specification tree, validated, and serialized to a canonical
//! compact JSON text that can be parsed back.
pub mod bridge;
pub mod json;
pub mod runtime;
pub mod specs;
pub mod text;

pub use bridge::DynamicComponentResolver;
pub use bridge::NoopKivyResolver;
pub use bridge::WidgetSpec;
pub use json::JsonValue;
pub use runtime::ResearchRuntimeEngine;
pub use runtime::RuntimeConfig;
pub use specs::AstEvaluationResult;
pub use specs::DeclarativeNode;
pub use specs::JsxExpressionEvaluator;
pub use specs::NoopJsxEvaluator;
pub use specs::RuntimeResearchError;

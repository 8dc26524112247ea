//! A compile-time dependency-injection resolver for web-service blueprints.
//!
//! Given a registry of constructors and a set of routes, each bound to a
//! handler, the library derives for every handler the ordered sequence of
//! constructor invocations that assembles its inputs, validates the result
//! (no missing constructor, no dependency cycle, no singleton depending on
//! per-request state), assigns every process-wide singleton a stable binding
//! name, numbers the routes, and produces the dispatch table that an external
//! code-emission backend renders into source.

pub mod registry;
pub mod model;
pub mod resolve;
pub mod scope;
pub mod router;
pub mod bindings;
pub mod dispatch;
pub mod pipeline;
pub mod laws;

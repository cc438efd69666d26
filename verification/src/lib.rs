//! Runtime core of an event-processing engine: a registry of named artefacts
//! (pipelines, sources, sinks and bindings), a supervisor for their running
//! instances ("servants"), a resolver that realizes and tears down bindings,
//! and the orchestrator ("World") that serializes every management operation
//! and owns the shutdown protocol.

pub mod artefact;
pub mod errors;
pub mod laws;
pub mod loader;
pub mod registry;
pub mod resolver;
pub mod server;
pub mod supervisor;
pub mod world;

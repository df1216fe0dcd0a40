//! Verified core of a Compose-style container orchestration tool.
//!
//! The library covers the logic of the tool: grouping live containers into
//! services, building the dependency graph for a stop or restart invocation,
//! the orchestration state machine that sequences per-container lifecycle
//! actions, the configuration value interpolation grammar, configuration
//! validation and naming rules, content fingerprints, the runtime version
//! gate, and the small string parsers used for command-line values and
//! volume declarations. Process invocation, file reading and the
//! asynchronous runtime live outside the library and drive it through
//! plain values.

pub mod config;
pub mod digest;
pub mod engine;
pub mod graph;
pub mod interp;
pub mod laws;
pub mod names;
pub mod parser;
pub mod podman;
pub mod port;
pub mod select;
pub mod util;
pub mod volume;

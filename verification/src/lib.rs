//! Pipeline orchestration core for template-driven project scaffolding.
//!
//! Templates are named bundles of steps (shell commands, repository clones,
//! reserved overlay stubs) with dependencies on other templates.  The core
//! resolves a dependency order, gates steps on small boolean conditions over
//! string variables, renders step fields, and tracks per-step completion in a
//! durable record so an interrupted run can be resumed.  All external effects
//! (processes, files) are performed by the caller, driven by the engine's
//! explicit action/event interface.

pub mod cli;
pub mod condition;
pub mod config;
pub mod engine;
pub mod executor;
pub mod llm;
pub mod prompts;
pub mod registry;
pub mod remote;
pub mod renderer;
pub mod resolver;
pub mod sorting;
pub mod state;
pub mod statefmt;
pub mod strutil;
pub mod toolcheck;
pub mod types;
pub mod vars;

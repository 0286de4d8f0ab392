//! Bridges devcontainers and the host environment: the workspace model, the
//! environment-variable rules, the rewriting of container service URLs to
//! published host ports, and the text that the command line prints.
//!
//! Paths are Unix paths, held as text: the library resolves them by Unix
//! rules, and the command line built on it runs on Unix hosts only.

pub mod cli;
pub mod container;
pub mod env;
pub mod json;
pub mod query;
pub mod report;
pub mod text;
pub mod urls;
pub mod workspace;

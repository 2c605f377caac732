//! Workspace model and dependency-graph engine for a monorepo of Python
//! packages and apps ("bricks").

pub mod cli;
pub mod config;
pub mod display;
pub mod error;
pub mod git;
pub mod graph;
pub mod impact;
pub mod mutate;
pub mod names;
pub mod scaffold;
pub mod template;
pub mod uv;
pub mod validate;
pub mod workspace;

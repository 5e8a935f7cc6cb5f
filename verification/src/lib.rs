//! Configuration-first command runner: the verified core.
//!
//! This crate holds the logic of the `fire` command runner: reading command
//! configuration, resolving command paths, shell completion, help listings,
//! and the rendering of command templates with positional arguments.

pub mod text;
pub mod strmap;
pub mod config;
pub mod words;
pub mod cli;
pub mod render;
pub mod paths;
pub mod runner;
pub mod resolve;
pub mod completion;
pub mod help;
pub mod execute;
pub mod flow;
pub mod bootstrap;
pub mod env;
pub mod mcp;
pub mod registry;
pub mod invocation;

//! The decision core of a small interactive shell: tokenising a line,
//! resolving aliases and builtins, expanding paths and completing names.

pub mod alias;
pub mod complete;
pub mod config;
pub mod dispatch;
pub mod laws;
pub mod path;
pub mod pending;
pub mod repl;
pub mod split;
pub mod text;

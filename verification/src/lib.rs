//! Turns provider definitions into the glue code that makes their probes callable.

pub mod ast;
pub mod builder;
pub mod emit;
pub mod laws;
pub mod parser;
pub mod text;
pub mod types;

//! A library for building and running signal-flow graphs of audio processors.

pub mod signal;
pub mod processor;
pub mod graph;
pub mod builtins;
pub mod message;

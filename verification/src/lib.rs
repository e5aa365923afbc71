//! A command core for a running simulation: a registry of named commands, an
//! interpreter for one-line textual invocations, and the decisions of the
//! channel adapter that feeds it.

pub mod command;
pub mod listener;
pub mod number;
pub mod parser;
pub mod payload;
pub mod simulation_object;
pub mod simulation_state;
pub mod token;

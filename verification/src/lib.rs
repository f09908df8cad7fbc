//! Client-side engine of an interactive debugger that joins a shared session.

pub mod action_laws;
pub mod command_laws;
pub mod connection_laws;
pub mod console;
pub mod dap;
pub mod expand_laws;
pub mod framing_laws;
pub mod header_laws;
pub mod json;
pub mod model;
pub mod model_laws;
pub mod node;
pub mod outcome;
pub mod repl;
pub mod reply_laws;
pub mod row_laws;
pub mod session_laws;
pub mod text;
pub mod text_laws;
pub mod transport;
pub mod types;
pub mod update;
pub mod views;

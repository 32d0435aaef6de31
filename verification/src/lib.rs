//! A process-output multiplexer: launches a fixed set of commands, drains
//! their standard-output streams without blocking, reassembles byte chunks
//! into complete lines, filters lines by an optional regular expression, and
//! colors each source's lines with a distinct ANSI color.

pub mod cli;
pub mod color;
pub mod filter;
pub mod laws;
pub mod lines;
pub mod mux;
pub mod render;

pub use cli::{parse_incoming_command_line, OptConfiguration};
pub use color::{parse_color, Color};
pub use mux::{
    all_retired, process_cycle, Command, CommandCtx, ConfigError, CtxView, ProcessStatus,
};

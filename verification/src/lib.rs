//! Concatenate text sources line by line, optionally numbering the lines.
//!
//! The crate holds the rules of a `cat`-like tool as verified functions on
//! plain values: how a command line becomes a [`Config`], how a line number is
//! laid out, which lines get one, and what a whole run writes.

pub mod args;
pub mod config;
pub mod emit;
pub mod lines;
pub mod numeral;
pub mod runner;

pub use args::{get_args, ArgError};
pub use config::{Config, Numbering};
pub use emit::{Action, Event, LineEmitter, RunError};
pub use runner::{run, Source, Transcript};

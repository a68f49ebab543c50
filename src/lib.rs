//! Deterministic single-tape Turing machines: a validated machine model, a
//! builder, a parser for a small definition language and a stepping engine.
mod text;
pub mod machines;
pub mod parse;
pub mod runner;
pub mod tm;

pub use machines::{tm_bar, tm_foo};
pub use parse::{parse, Error, ParseError};
pub use runner::{HeadPosition, Runner, RunnerState, IR};
pub use tm::{HeadDirection, State, Symbol, TMBuilder, TransferFn, TransferFnItem, TM};

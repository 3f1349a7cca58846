//! A verified interpreter for the eight-symbol tape-machine language.
//!
//! The library is split in two stages, mirroring the life of a program:
//! [`read`] turns source text into a linked [`Command`] sequence, resolving
//! each bracket to the index of its partner, and [`eval`] walks that sequence
//! against a 30000-cell byte tape, consuming input bytes and producing output
//! bytes.

pub mod balance;
pub mod command;
pub mod interp;
pub mod linking;
pub mod parser;

pub use command::Command;
pub use interp::eval;
pub use parser::read;


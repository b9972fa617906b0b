//! Program synthesis for BV, a small language of 64-bit functions.
//!
//! An oracle holds a hidden BV program and answers two questions: what the
//! program gives on chosen inputs, and whether a guess is right, with an
//! input that shows it where it is not. From the size and the operators of
//! the hidden program alone, this library finds a program that the oracle
//! takes.
//!
//! * `program`, `print`, `parse`: the expressions, their text, and the
//!   reader of that text; `roundtrip` says what reading a printed program
//!   gives back.
//! * `eval`, `compile`: what a program means, an interpreter, and programs
//!   with their identifiers resolved.
//! * `rng`, `gen`: random programs of an exact size over given operators;
//!   `sizes` says which sizes can be had at all.
//! * `search`: workers that draw candidates and test them against
//!   input/output pairs, and the coordinator that owns the pairs.
//! * `driver`: the loop that turns counter-examples into pairs.
//! * `webapi`: problems, answers, and an oracle that runs in this process.
//! * `hex`, `config`, `stats`, `strings`: numbers as the oracle writes
//!   them, settings, timings, and the comparison of texts.
//!
//! Nothing here reads a clock, a file or a socket, or starts a thread: what
//! comes from outside comes in as plain values.

pub mod compile;
pub mod config;
pub mod driver;
pub mod eval;
pub mod gen;
pub mod hex;
pub mod parse;
pub mod print;
pub mod program;
pub mod rng;
pub mod roundtrip;
pub mod search;
pub mod sizes;
pub mod stats;
pub mod strings;
pub mod webapi;

//! An interpreter for a small tape-machine assembly language.
//!
//! A program is a sequence of lines; each line is a command made of an
//! optional guard, a body of tape instructions, and a mandatory `goto` or
//! `halt`. [`parser::Parser`] turns source text into commands and
//! [`machine::Machine`] runs them against a tape of integers.
//!
//! Conventions:
//! - `mover n` subtracts `n` from the head position and `movel n` adds `n`
//!   to it, whatever the names suggest.
//! - When a guard does not hold, the run goes on at the next line; a machine
//!   made with [`machine::GuardPolicy::Stop`] stops instead.
//! - `goto n` names lines counted from 1; a target that is not a line of the
//!   program is a runtime error, while running past the last line ends the
//!   run normally.
//! - Every run has a step budget, so that it always returns.

pub mod text;
pub mod number;
pub mod token;
pub mod command;
pub mod parser;
pub mod machine;
pub mod laws;

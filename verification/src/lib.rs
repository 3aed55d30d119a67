//! A supervisor for one shell command: the command is launched, both of its
//! output streams are split into lines, decoded and logged, and the command
//! is launched again until it exits with status zero.
//!
//! This crate holds the rules of that supervisor, each with a contract that
//! Verus proves. Launching processes, reading pipes and writing the log file
//! are left to the program that drives it.

pub mod attempt;
pub mod config;
pub mod encoding;
pub mod lines;
pub mod pipeline;
pub mod supervisor;

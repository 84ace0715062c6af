//! Turns `TODO` comments found in source files into issue candidates and
//! steers the triage of each candidate.

pub mod cli;
pub mod command;
pub mod issue;
pub mod parse;
pub mod pattern;
pub mod request;
pub mod scan;
pub mod text;
pub mod triage;

//! Environment resolution for a command-line launcher: discovering named
//! environment definition files, parsing them into variable mappings,
//! validating required fields, and preparing the shell commands that hand
//! the variables to the launched target program.

pub mod config;
pub mod error;
pub mod executor;
pub mod manager;
pub mod parse;
pub mod strutil;
pub mod vars;

//! The command line: configuration, validation into a plan, and what a finished
//! run amounts to.

pub mod args;
pub mod config;
pub mod provider;
pub mod run;

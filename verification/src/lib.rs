//! Docker, PHP and release commands for a compose project.
//!
//! The library holds what the `so` program decides and computes: which programs it runs and with
//! which arguments, in which order images are built, how settings are found and kept, which
//! version and tag a release gets and what git does for it, and which archive is installed. It
//! reads no file and runs no program: what was read or answered is handed to it, and what to do
//! next is what it returns.

pub mod api;
pub mod build;
pub mod cache;
pub mod cli;
pub mod codec;
pub mod command;
pub mod compose;
pub mod config;
pub mod git;
pub mod help;
pub mod listing;
pub mod notes;
pub mod number;
pub mod php;
pub mod progress;
pub mod project;
pub mod prompt;
pub mod release;
pub mod tags;
pub mod term;
pub mod text;
pub mod tools;
pub mod tree;
pub mod ui;
pub mod update;
pub mod vars;
pub mod version;

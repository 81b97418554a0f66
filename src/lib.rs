//! Profile-generation and GC-root housekeeping for a Nix helper: the rules
//! that decide which generation links and GC roots may be removed, with
//! the plain decisions of its other commands.

pub mod commands;
pub mod error;
pub mod gcroot;
pub mod generations;
pub mod installable;
pub mod interface;
pub mod naming;
pub mod pattern;
pub mod plan;
pub mod rebuild;
pub mod retention;
pub mod scope;

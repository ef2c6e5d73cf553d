//! A verified core for a command-line trash utility.
//!
//! Instead of deleting files outright, the tool relocates them into a
//! per-volume trash directory and records every relocation in an
//! append-only history log.  This crate holds the logic that decides
//! where a file must go and what is written to the log; the thin
//! process wrapper around it performs the actual filesystem calls.

pub mod cmd;
pub mod environment;
pub mod errors;
pub mod history;
pub mod mtab_parser;
pub mod mv;
pub mod ops;
pub mod os;
pub mod paths;
pub mod strutil;
pub mod trash_dir;

pub use paths::gen_new_name;
pub use paths::make_absolute;

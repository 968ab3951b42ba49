//! EDIABAS SGBD (`.prg`/`.grp`) containers: the text codec and the embedded tables.
//!
//! An SGBD is a compiled ECU-description file. This module reads the *container* and exposes
//! the embedded tables as plain `(name, columns, rows)` text; it does not interpret the job
//! bytecode. Reading is total: a malformed file is an error or an empty list of tables.
pub mod cp1252;
pub mod prg;

pub use prg::{Prg, SgbdError, Table};

//! Vehicle diagnostics over HSFZ: framing, containers, catalogs and procedures.
#![allow(unused_imports)]

pub mod bytes;
pub mod client;
pub mod hsfz;
pub mod order;
pub mod ratio;
pub mod semantic;
pub mod service;
pub mod sgbd;
pub mod text;
pub mod uds;

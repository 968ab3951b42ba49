//! The diagnostic client: the demultiplexed session and the procedures that run over it.
pub mod actions;
pub mod error;
pub mod identity;
pub mod scan;
pub mod services;
pub mod session;
pub mod supplier;

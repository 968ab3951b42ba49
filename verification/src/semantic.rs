//! What raw diagnostics mean.
pub mod catalog;
pub mod did;
pub mod dtc;
pub mod identity;
pub mod measurement;
pub mod pid;
pub mod quantity;
pub mod service_function;
pub mod snapshot;

//! Service functions as phase cycles: arguments, preconditions, and the run itself.
pub mod phase;
pub mod precondition;
pub mod runner;

pub use phase::{function_ids, invocations, Invocation, Phase};
pub use runner::{hold_for, Cycle, Hold, PhaseOutcome, ServiceReport, Teardown};

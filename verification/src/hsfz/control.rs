//! HSFZ control words (message types).
use vstd::prelude::*;

verus! {

/// Diagnostic message (carries UDS plus source and target). TCP 6801.
pub const DIAGNOSTIC: u16 = 0x0001;

/// Acknowledge / echo of a diagnostic message.
pub const ACK: u16 = 0x0002;

/// Vehicle identification / announcement (discovery). UDP 6811.
pub const IDENTIFICATION: u16 = 0x0011;

/// Keepalive / alive check.
pub const ALIVE_CHECK: u16 = 0x0012;

} // verus!

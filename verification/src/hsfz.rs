//! HSFZ transport (F-series ENET): frame encoding and decoding, gateway discovery, and the
//! conventional ports, addresses and timeouts.
use vstd::prelude::*;

pub mod control;
pub mod discover;
pub mod frame;

pub use discover::{first_link_local, is_vin_char, scan_vin, Gateway};
pub use frame::{remaining_len, HsfzFrame, HEADER_LEN, MAX_FRAME_LEN};

verus! {

/// TCP diagnostic port.
pub const DIAG_PORT: u16 = 6801;

/// UDP/TCP control and identification port.
pub const CONTROL_PORT: u16 = 6811;

/// Tester (client) logical address.
pub const TESTER_ADDRESS: u8 = 0xF4;

/// Central gateway (ZGW) logical address.
pub const ZGW_ADDRESS: u8 = 0x10;

/// Default TCP connect timeout, in milliseconds.
pub const CONNECT_TIMEOUT_DEFAULT_MS: u64 = 5000;

/// Default per-request read timeout, in milliseconds: how long an ECU has to answer at all.
///
/// This bounds only the *initial* wait. Once an ECU answers that it is still working the tester
/// owes it the longer budget [`crate::uds::P2_STAR_SERVER_MAX_DEFAULT_MS`].
pub const READ_TIMEOUT_DEFAULT_MS: u64 = 1200;

/// Errors from the HSFZ transport. Timeouts are in milliseconds.
#[derive(Debug, Clone, PartialEq, Eq)]
pub enum Error {
    /// The gateway refused the connection, or a socket option could not be set.
    Connect { peer: String, message: String },
    /// The gateway did not accept the connection in time.
    ConnectTimeout { peer: String, timeout: u64 },
    /// Nothing was received in time.
    ReadTimeout { timeout: u64 },
    /// A length field beyond [`MAX_FRAME_LEN`]: likely a misframe.
    FrameTooLarge { length: u32 },
    /// Fewer bytes than the frame needs.
    Truncated { have: usize, need: usize },
    /// The discovery socket could not be bound to the address.
    DiscoveryBind { bind_ip: [u8; 4], message: String },
    /// The connection failed.
    Io { message: String },
}

/// The tester talks to the gateway at `0x10` from `0xF4`, over the diagnostic port and the control
/// port, and gives up after the default times.
pub proof fn law_the_network_is_fixed()
    ensures
        DIAG_PORT == 6801,
        CONTROL_PORT == 6811,
        TESTER_ADDRESS == 0xF4,
        ZGW_ADDRESS == 0x10,
        CONNECT_TIMEOUT_DEFAULT_MS == 5_000,
        READ_TIMEOUT_DEFAULT_MS == 1_200,
        READ_TIMEOUT_DEFAULT_MS < crate::uds::P2_STAR_SERVER_MAX_DEFAULT_MS,
{
}

} // verus!

//! Protocol constants and the fixed CMPP message header.
use vstd::prelude::*;

verus! {

/// Largest message, header included, that is accepted from the wire.
pub const CMPP_MAX_MESSAGE_LENGTH: usize = 65536;

/// Length in bytes of the fixed header: Total_Length, Command_Id, Sequence_Id.
pub const CMPP_HEADER_LENGTH: usize = 12;

/// Capacity of the queue of SUBMIT packets that wait for the socket.
pub const SEND_CHANNEL_CAPACITY: usize = 1000;

/// Capacity of the channel on which events reach the application.
pub const INCOMING_CHANNEL_CAPACITY: usize = 1000;

/// Initial capacity of the read buffer.
pub const CODEC_INITIAL_CAPACITY: usize = 65536;

/// Nanoseconds in a second.
pub const NANOS_PER_SEC: u128 = 1_000_000_000;

/// Longest pause, in nanoseconds, between two scans for unanswered requests.
pub const TIMEOUT_CHECK_INTERVAL: u128 = 1_000_000_000;

/// The CMPP 2.0 version byte.
pub const CMPP_VERSION_20: u8 = 0x20;

/// `CMPP_CONNECT` command id.
pub const CMPP_CONNECT: u32 = 0x0000_0001;

/// `CMPP_CONNECT_RESP` command id.
pub const CMPP_CONNECT_RESP: u32 = 0x8000_0001;

/// `CMPP_TERMINATE` command id.
pub const CMPP_TERMINATE: u32 = 0x0000_0002;

/// `CMPP_TERMINATE_RESP` command id.
pub const CMPP_TERMINATE_RESP: u32 = 0x8000_0002;

/// `CMPP_SUBMIT` command id.
pub const CMPP_SUBMIT: u32 = 0x0000_0004;

/// `CMPP_SUBMIT_RESP` command id.
pub const CMPP_SUBMIT_RESP: u32 = 0x8000_0004;

/// `CMPP_DELIVER` command id.
pub const CMPP_DELIVER: u32 = 0x0000_0005;

/// `CMPP_DELIVER_RESP` command id.
pub const CMPP_DELIVER_RESP: u32 = 0x8000_0005;

/// `CMPP_ACTIVE_TEST` command id.
pub const CMPP_ACTIVE_TEST: u32 = 0x0000_0008;

/// `CMPP_ACTIVE_TEST_RESP` command id.
pub const CMPP_ACTIVE_TEST_RESP: u32 = 0x8000_0008;

/// The fixed 12-byte message header.
#[derive(Debug, Clone, Copy, PartialEq, Eq, Structural)]
pub struct CmppHeader {
    /// Length of the whole message, header included, in bytes.
    pub total_length: u32,
    /// Command id (one of the `CMPP_*` constants).
    pub command_id: u32,
    /// Sequence id that pairs a request with its response.
    pub sequence_id: u32,
}

} // verus!

//! Ports, limits, timeouts and intervals.

use vstd::prelude::*;

verus! {

/// The port that the server listens on by default.
pub const DEFAULT_PORT: u16 = 49195;

/// The longest message that is taken from a client, in bytes.
pub const MAX_WS_MESSAGE_SIZE: usize = 65536;

/// The port of the front-end boxes.
pub const FRONT_END_PORT: u16 = 56000;

/// How long connecting to a front-end box may take, in milliseconds.
pub const FRONT_END_CONNECT_TIMEOUT_MS: u64 = 500;

/// How long a request to a front-end box may take, in milliseconds.
pub const FRONT_END_HTTP_TIMEOUT_MS: u64 = 5000;

/// The time between two saves of the state, in seconds.
pub const PERSIST_INTERVAL_SECS: u64 = 30;

/// The time between two looks for stale devices, in seconds.
pub const WATCHDOG_INTERVAL_SECS: u64 = 10;

/// The bit pattern of 60.0: a device without data for more seconds is disconnected.
pub const WATCHDOG_STALE_SECS_BITS: u64 = 0x404E_0000_0000_0000;

/// The time between two pings of the front-end boxes, in seconds.
pub const PING_INTERVAL_SECS: u64 = 30;

/// How many messages to clients are kept for those that are behind.
pub const BROADCAST_CHANNEL_CAPACITY: usize = 2048;

/// The time between two chart updates, in milliseconds.
pub const BROADCAST_INTERVAL_MS: u64 = 100;

/// How many commands are taken from a client in a second.
pub const MAX_COMMANDS_PER_SEC: usize = 10;

/// How long the trigger of the front-end boxes is cut to reset them, in seconds.
pub const RESET_WAIT_SECS: u32 = 65;

/// The first delay before a lost connection is tried again, in seconds.
pub const INITIAL_RETRY_DELAY_SECS: u64 = 2;

/// The longest delay before a lost connection is tried again, in seconds.
pub const MAX_RETRY_DELAY_SECS: u64 = 60;

/// The buffer size that is assumed until another is known.
pub const DEFAULT_BUFFER_SIZE: usize = 1000;

/// The least and the greatest buffer size that can be set.
pub const MIN_BUFFER_SIZE: usize = 10;

pub const MAX_BUFFER_SIZE: usize = 10000;

}

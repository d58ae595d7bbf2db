//! Fixed bounds on incoming data and exported metrics.
use vstd::prelude::*;

verus! {

/// Maximum accepted JSON event payload size in bytes.
pub const MAX_EVENT_SIZE: usize = 4096;

/// Maximum event name length before validation rejects the payload.
pub const MAX_EVENT_NAME_LEN: usize = 120;

/// Maximum path length accepted from incoming events.
pub const MAX_PATH_LEN: usize = 2048;

/// Maximum custom property key length before it is collapsed to `other`.
pub const MAX_PROPERTY_KEY_LEN: usize = 64;

/// Maximum custom property value length before it is collapsed to `other`.
pub const MAX_PROPERTY_VALUE_LEN: usize = 200;

/// Maximum raw referrer length accepted from incoming events.
pub const MAX_REFERRER_LEN: usize = 2048;

/// IEEE-754 binary64 bit pattern of 86 400.0, the maximum engagement duration
/// in seconds accepted for a single event.
pub const MAX_ENGAGEMENT_SECONDS_BITS: u64 = 0x40F5_1800_0000_0000;

/// Maximum viewport width accepted from incoming events.
pub const MAX_WIDTH: u16 = 10000;

/// HTTP read timeout, in seconds, used by packaged service integrations.
pub const HTTP_READ_TIMEOUT_SECS: u64 = 10;

/// HTTP write timeout, in seconds, used by packaged service integrations.
pub const HTTP_WRITE_TIMEOUT_SECS: u64 = 10;

/// Maximum time, in seconds, allowed for background tasks to stop during
/// shutdown.
pub const SHUTDOWN_TIMEOUT_SECS: u64 = 30;

/// Interval, in seconds, for refreshing the exported unique visitor gauge.
pub const UNIQUES_UPDATE_PERIOD_SECS: u64 = 10;

/// Maximum Prometheus response size returned by the metrics endpoint.
pub const MAX_METRICS_RESPONSE_SIZE: usize = 10485760;

} // verus!

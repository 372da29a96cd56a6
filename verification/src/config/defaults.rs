//! Values used for configuration keys that are left out.
use vstd::prelude::*;

verus! {

/// Default `general.log_level`.
pub fn log_level() -> (r: String)
    ensures
        r@ == "info"@,
{
    String::from_str("info")
}

/// Default `general.stats_interval_secs`.
pub fn stats_interval() -> (r: u64)
    ensures
        r == 30,
{
    30
}

/// Default `general.channel_capacity`.
pub fn channel_capacity() -> (r: usize)
    ensures
        r == 1024,
{
    1024
}

/// Default `general.max_payload_size`.
pub fn max_payload() -> (r: usize)
    ensures
        r == 65535,
{
    65535
}

/// Default multicast TTL of an endpoint.
pub fn multicast_ttl() -> (r: u32)
    ensures
        r == 16,
{
    16
}

/// Default `burst_size` of a rate limit, in bytes.
pub fn burst() -> (r: u64)
    ensures
        r == 131_072,
{
    131_072
}

} // verus!

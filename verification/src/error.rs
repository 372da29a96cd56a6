//! Why a configuration is refused.
use vstd::prelude::*;

verus! {

/// The first rule a configuration breaks. Destination variants carry the
/// index of the offending `[[destinations]]` entry.
#[derive(Debug, Clone, Copy, PartialEq, Eq, Structural)]
pub enum ConfigError {
    /// The source address is not a socket address.
    SourceAddress,
    /// The source asks for broadcast or multicast over TCP.
    SourceCastNeedsUdp,
    /// The source's multicast interface is not an IPv4 address.
    SourceMulticastInterface,
    /// There is no `[[destinations]]` entry.
    NoDestinations,
    /// A destination address is not a socket address.
    DestinationAddress(usize),
    /// A destination asks for broadcast or multicast over TCP.
    DestinationCastNeedsUdp(usize),
    /// A destination's multicast interface is not an IPv4 address.
    DestinationMulticastInterface(usize),
    /// A destination's own rate limit has a zero rate.
    DestinationZeroRate(usize),
    /// The global rate limit has a zero rate.
    ZeroGlobalRate,
    /// `general.max_payload_size` is zero.
    ZeroMaxPayload,
    /// `general.health_bind_addr` is not an IP address.
    HealthBindAddr,
}

} // verus!

verus! {

use crate::config::RelayConfig;
use crate::text::{decimal, decimal_string};

/// An error of the relay, each kind with the text of its cause.
#[derive(Debug, Clone, PartialEq, Eq)]
pub enum RelayError {
    /// Reading or writing a file or socket failed.
    Io(String),
    /// The configuration breaks a rule.
    Config(String),
    /// An address did not parse.
    AddrParse(String),
    /// The configuration file is not valid TOML for the schema.
    TomlParse(String),
}

/// The text a `RelayError` is shown as: a prefix naming its kind, then its
/// cause.
pub open spec fn relay_error_text(e: RelayError) -> Seq<char> {
    match e {
        RelayError::Io(s) => "I/O error: "@ + s@,
        RelayError::Config(s) => "configuration error: "@ + s@,
        RelayError::AddrParse(s) => "address parse error: "@ + s@,
        RelayError::TomlParse(s) => "TOML parse error: "@ + s@,
    }
}

impl RelayError {
    /// The text of this error, prefix and cause.
    pub fn message(&self) -> (r: String)
        ensures
            r@ == relay_error_text(*self),
    {
        let (prefix, cause) = match self {
            RelayError::Io(s) => ("I/O error: ", s),
            RelayError::Config(s) => ("configuration error: ", s),
            RelayError::AddrParse(s) => ("address parse error: ", s),
            RelayError::TomlParse(s) => ("TOML parse error: ", s),
        };
        let mut out = String::from_str(prefix);
        out.append(cause.as_str());
        out
    }
}

/// `destination[i]: ` as the messages about one destination start.
pub open spec fn dest_prefix(i: usize) -> Seq<char> {
    "destination["@ + decimal(i as nat) + "]: "@
}

pub open spec fn opt_text(o: Option<String>) -> Seq<char> {
    match o {
        Some(s) => s@,
        None => Seq::empty(),
    }
}

/// The cause reported for an error about `cfg`, without the prefix that
/// names its kind.
pub open spec fn error_detail(e: ConfigError, cfg: RelayConfig) -> Seq<char> {
    match e {
        ConfigError::SourceAddress => "invalid socket address syntax"@,
        ConfigError::SourceCastNeedsUdp => "source: broadcast/multicast requires protocol = \"udp\""@,
        ConfigError::SourceMulticastInterface => "source: multicast_interface '"@ + opt_text(
            cfg.source.multicast_interface,
        ) + "' is not a valid IPv4 address (use an IP address, not an interface name)"@,
        ConfigError::NoDestinations => "at least one [[destinations]] entry is required"@,
        ConfigError::DestinationAddress(i) => dest_prefix(i) + "invalid address '"@
            + cfg.destinations@[i as int].base.address@ + "': invalid socket address syntax"@,
        ConfigError::DestinationCastNeedsUdp(i) => dest_prefix(i)
            + "broadcast/multicast requires protocol = \"udp\""@,
        ConfigError::DestinationMulticastInterface(i) => dest_prefix(i) + "multicast_interface '"@
            + opt_text(cfg.destinations@[i as int].base.multicast_interface)
            + "' is not a valid IPv4 address (use an IP address, not an interface name)"@,
        ConfigError::DestinationZeroRate(i) => dest_prefix(i)
            + "rate_limit.bytes_per_second must be > 0"@,
        ConfigError::ZeroGlobalRate => "rate_limit.bytes_per_second must be > 0"@,
        ConfigError::ZeroMaxPayload => "general.max_payload_size must be > 0"@,
        ConfigError::HealthBindAddr => "general.health_bind_addr '"@ + opt_text(
            cfg.general.health_bind_addr,
        ) + "' is not a valid IP address: invalid IP address syntax"@,
    }
}

/// Whether `r` reports the rule `e` broken by `cfg`.
pub open spec fn reports(r: RelayError, e: ConfigError, cfg: RelayConfig) -> bool {
    match (r, e) {
        (RelayError::AddrParse(s), ConfigError::SourceAddress) => s@ == error_detail(e, cfg),
        (RelayError::Config(s), _) => e != ConfigError::SourceAddress && s@ == error_detail(
            e,
            cfg,
        ),
        _ => false,
    }
}

/// The full text reported for an error about `cfg`.
pub open spec fn error_text(e: ConfigError, cfg: RelayConfig) -> Seq<char> {
    match e {
        ConfigError::SourceAddress => "address parse error: "@ + error_detail(e, cfg),
        _ => "configuration error: "@ + error_detail(e, cfg),
    }
}

fn opt_str(o: &Option<String>) -> (r: &str)
    ensures
        r@ == opt_text(*o),
{
    match o {
        Some(s) => s.as_str(),
        None => {
            proof {
                reveal_strlit("");
            }
            ""
        },
    }
}

fn dest_detail(i: usize, rest: &str) -> (r: String)
    ensures
        r@ == dest_prefix(i) + rest@,
{
    let mut out = String::from_str("destination[");
    let n = decimal_string(i as u128);
    out.append(n.as_str());
    out.append("]: ");
    out.append(rest);
    out
}

impl ConfigError {
    /// The cause of this error about `cfg`, without the kind's prefix.
    pub fn detail(&self, cfg: &RelayConfig) -> (r: String)
        requires
            match *self {
                ConfigError::DestinationAddress(i) => i < cfg.destinations@.len(),
                ConfigError::DestinationMulticastInterface(i) => i < cfg.destinations@.len(),
                _ => true,
            },
        ensures
            r@ == error_detail(*self, *cfg),
    {
        match self {
            ConfigError::SourceAddress => String::from_str("invalid socket address syntax"),
            ConfigError::SourceCastNeedsUdp => String::from_str(
                "source: broadcast/multicast requires protocol = \"udp\"",
            ),
            ConfigError::SourceMulticastInterface => {
                let mut out = String::from_str("source: multicast_interface '");
                out.append(opt_str(&cfg.source.multicast_interface));
                out.append(
                    "' is not a valid IPv4 address (use an IP address, not an interface name)",
                );
                out
            },
            ConfigError::NoDestinations => String::from_str(
                "at least one [[destinations]] entry is required",
            ),
            ConfigError::DestinationAddress(i) => {
                let mut out = dest_detail(*i, "invalid address '");
                out.append(cfg.destinations[*i].base.address.as_str());
                out.append("': invalid socket address syntax");
                out
            },
            ConfigError::DestinationCastNeedsUdp(i) => dest_detail(
                *i,
                "broadcast/multicast requires protocol = \"udp\"",
            ),
            ConfigError::DestinationMulticastInterface(i) => {
                let mut out = dest_detail(*i, "multicast_interface '");
                out.append(opt_str(&cfg.destinations[*i].base.multicast_interface));
                out.append(
                    "' is not a valid IPv4 address (use an IP address, not an interface name)",
                );
                out
            },
            ConfigError::DestinationZeroRate(i) => dest_detail(
                *i,
                "rate_limit.bytes_per_second must be > 0",
            ),
            ConfigError::ZeroGlobalRate => String::from_str(
                "rate_limit.bytes_per_second must be > 0",
            ),
            ConfigError::ZeroMaxPayload => String::from_str("general.max_payload_size must be > 0"),
            ConfigError::HealthBindAddr => {
                let mut out = String::from_str("general.health_bind_addr '");
                out.append(opt_str(&cfg.general.health_bind_addr));
                out.append("' is not a valid IP address: invalid IP address syntax");
                out
            },
        }
    }

    /// The relay error this broken rule is reported as.
    pub fn to_relay_error(&self, cfg: &RelayConfig) -> (r: RelayError)
        requires
            match *self {
                ConfigError::DestinationAddress(i) => i < cfg.destinations@.len(),
                ConfigError::DestinationMulticastInterface(i) => i < cfg.destinations@.len(),
                _ => true,
            },
        ensures
            reports(r, *self, *cfg),
            relay_error_text(r) == error_text(*self, *cfg),
    {
        let d = self.detail(cfg);
        match self {
            ConfigError::SourceAddress => RelayError::AddrParse(d),
            _ => RelayError::Config(d),
        }
    }

    /// The full message for this error about `cfg`.
    pub fn describe(&self, cfg: &RelayConfig) -> (r: String)
        requires
            match *self {
                ConfigError::DestinationAddress(i) => i < cfg.destinations@.len(),
                ConfigError::DestinationMulticastInterface(i) => i < cfg.destinations@.len(),
                _ => true,
            },
        ensures
            r@ == error_text(*self, *cfg),
    {
        self.to_relay_error(cfg).message()
    }
}

} // verus!

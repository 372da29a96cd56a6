//! The relay's configuration model, its defaults, and the rules that decide
//! whether a configuration is accepted.
use vstd::prelude::*;
use crate::error::ConfigError;

pub mod defaults;
pub mod toml_writer;

pub use toml_writer::{to_toml_string, toml_str, write_endpoint_fields};

verus! {

// ── Top-level configuration ────────────────────────────────────────

/// The whole relay configuration: process settings, the single source,
/// the optional global rate limit, and one or more destinations.
#[derive(Debug, Clone, PartialEq)]
pub struct RelayConfig {
    pub general: GeneralConfig,
    pub source: EndpointConfig,
    pub rate_limit: Option<RateLimitConfig>,
    pub destinations: Vec<DestConfig>,
}

/// Process-wide settings (`[general]`).
#[derive(Debug, Clone, PartialEq)]
pub struct GeneralConfig {
    pub log_level: String,
    pub stats_interval_secs: u64,
    pub channel_capacity: usize,
    pub max_payload_size: usize,
    pub health_port: Option<u16>,
    /// Bind address for the health/stats/metrics HTTP server. `None` binds
    /// both `0.0.0.0` and `::`.
    pub health_bind_addr: Option<String>,
}

/// Token-bucket parameters: sustained rate and burst allowance, in bytes.
#[derive(Debug, Clone, Copy, PartialEq, Eq, Structural)]
pub struct RateLimitConfig {
    pub bytes_per_second: u64,
    pub burst_size: u64,
}

// ── Endpoint (source or destination) ───────────────────────────────

/// One endpoint: the source, or the shared part of a destination.
#[derive(Debug, Clone, PartialEq)]
pub struct EndpointConfig {
    pub name: Option<String>,
    pub protocol: Protocol,
    pub mode: EndpointMode,
    pub address: String,
    pub cast_mode: CastMode,
    pub multicast_interface: Option<String>,
    pub multicast_interface_index: Option<u32>,
    pub multicast_ttl: u32,
    pub reconnect_delay_ms: Option<u64>,
}

/// A destination endpoint: an [`EndpointConfig`] plus what only outbound
/// queues need (overflow policy, an optional per-destination rate limit
/// that overrides the global one, and the transform pipeline).
#[derive(Debug, Clone, PartialEq)]
pub struct DestConfig {
    pub base: EndpointConfig,
    pub overflow_policy: OverflowPolicy,
    pub rate_limit: Option<RateLimitConfig>,
    pub transforms: Vec<TransformConfig>,
}

/// One stage of a destination's transform pipeline, as configured.
#[derive(Debug, Clone, Copy, Hash, PartialEq, Eq, Structural)]
pub enum TransformConfig {
    DropSmallerThan { n_bytes: usize },
    DropLargerThan { n_bytes: usize },
    ByteSwap16,
    ByteSwap32,
}

#[derive(Debug, Clone, Copy, Hash, PartialEq, Eq, Structural)]
pub enum Protocol {
    Tcp,
    Udp,
}

#[derive(Debug, Clone, Copy, Hash, PartialEq, Eq, Structural)]
pub enum EndpointMode {
    Server,
    Client,
}

#[derive(Debug, Clone, Copy, Hash, PartialEq, Eq, Structural)]
pub enum CastMode {
    Unicast,
    Broadcast,
    Multicast,
}

impl Default for CastMode {
    fn default() -> (r: CastMode)
        ensures
            r == CastMode::Unicast,
    {
        CastMode::Unicast
    }
}

/// What to do when a destination's queue is full.
#[derive(Debug, Clone, Copy, PartialEq, Eq, Structural)]
pub enum OverflowPolicy {
    DropNewest,
    Block,
}

impl Default for OverflowPolicy {
    fn default() -> (r: OverflowPolicy)
        ensures
            r == OverflowPolicy::DropNewest,
    {
        OverflowPolicy::DropNewest
    }
}

/// A destination reads as its endpoint fields.
impl std::ops::Deref for DestConfig {
    type Target = EndpointConfig;

    fn deref(&self) -> (r: &EndpointConfig)
        ensures
            *r == self.base,
    {
        &self.base
    }
}

// ── Helpers ────────────────────────────────────────────────────────

/// The reconnect pause used when none is configured, in milliseconds.
pub open spec fn default_reconnect_delay_ms() -> u64 {
    2000
}

/// The label of an endpoint: its name, or its address when unnamed.
pub open spec fn display_name_of(e: EndpointConfig) -> Seq<char> {
    match e.name {
        Some(n) => n@,
        None => e.address@,
    }
}

impl EndpointConfig {
    /// The name used in logs and stats: `name` when set, else `address`.
    pub fn display_name(&self) -> (r: String)
        ensures
            r@ == display_name_of(*self),
    {
        match &self.name {
            Some(n) => n.clone(),
            None => self.address.clone(),
        }
    }

    /// The reconnect pause in milliseconds (2000 when not configured).
    pub fn reconnect_delay(&self) -> (r: u64)
        ensures
            r == match self.reconnect_delay_ms {
                Some(ms) => ms,
                None => default_reconnect_delay_ms(),
            },
    {
        match self.reconnect_delay_ms {
            Some(ms) => ms,
            None => 2000,
        }
    }
}

// ── Validation ─────────────────────────────────────────────────────

/// What the address parsers said about one endpoint's strings: whether
/// `address` parses as a socket address, and whether
/// `multicast_interface` (when present) parses as an IPv4 address.
#[derive(Debug, Clone, Copy, PartialEq, Eq, Structural)]
pub struct EndpointChecks {
    pub address_parses: bool,
    pub interface_parses_v4: bool,
}

/// The parser outcomes for every address string of a configuration:
/// the source, each destination in order, and `health_bind_addr` parsed
/// as an IP address.
#[derive(Debug, Clone)]
pub struct AddressChecks {
    pub source: EndpointChecks,
    pub destinations: Vec<EndpointChecks>,
    pub health_bind_addr_parses: bool,
}

/// Broadcast and multicast need UDP.
pub open spec fn cast_needs_udp(e: EndpointConfig) -> bool {
    e.protocol == Protocol::Tcp && e.cast_mode != CastMode::Unicast
}

/// A multicast endpoint names a non-empty interface that is not an IPv4
/// address.
pub open spec fn bad_multicast_interface(e: EndpointConfig, c: EndpointChecks) -> bool {
    &&& e.cast_mode == CastMode::Multicast
    &&& e.multicast_interface is Some
    &&& e.multicast_interface.unwrap()@.len() > 0
    &&& !c.interface_parses_v4
}

/// A configured rate limit with a zero rate.
pub open spec fn zero_rate(rl: Option<RateLimitConfig>) -> bool {
    rl matches Some(r) && r.bytes_per_second == 0
}

/// The first thing wrong with destination `i`, if anything.
pub open spec fn dest_problem(d: DestConfig, c: EndpointChecks, i: int) -> Option<ConfigError> {
    if !c.address_parses {
        Some(ConfigError::DestinationAddress(i as usize))
    } else if cast_needs_udp(d.base) {
        Some(ConfigError::DestinationCastNeedsUdp(i as usize))
    } else if bad_multicast_interface(d.base, c) {
        Some(ConfigError::DestinationMulticastInterface(i as usize))
    } else if zero_rate(d.rate_limit) {
        Some(ConfigError::DestinationZeroRate(i as usize))
    } else {
        None
    }
}

/// The problem of the first destination, at index `i` or later, that has one.
pub open spec fn first_dest_problem(
    dests: Seq<DestConfig>,
    checks: Seq<EndpointChecks>,
    i: int,
) -> Option<ConfigError>
    decreases dests.len() - i,
{
    if i < 0 || i >= dests.len() {
        None
    } else {
        match dest_problem(dests[i], checks[i], i) {
            Some(e) => Some(e),
            None => first_dest_problem(dests, checks, i + 1),
        }
    }
}

/// The outcome of validation: the checks run in a fixed order (source,
/// then destinations in order, then the global rate limit, the payload
/// limit and the health bind address) and the first failing one is
/// reported.
pub open spec fn validation_result(cfg: RelayConfig, checks: AddressChecks) -> Result<
    (),
    ConfigError,
> {
    if !checks.source.address_parses {
        Err(ConfigError::SourceAddress)
    } else if cast_needs_udp(cfg.source) {
        Err(ConfigError::SourceCastNeedsUdp)
    } else if bad_multicast_interface(cfg.source, checks.source) {
        Err(ConfigError::SourceMulticastInterface)
    } else if cfg.destinations@.len() == 0 {
        Err(ConfigError::NoDestinations)
    } else if first_dest_problem(cfg.destinations@, checks.destinations@, 0) is Some {
        Err(first_dest_problem(cfg.destinations@, checks.destinations@, 0).unwrap())
    } else if zero_rate(cfg.rate_limit) {
        Err(ConfigError::ZeroGlobalRate)
    } else if cfg.general.max_payload_size == 0 {
        Err(ConfigError::ZeroMaxPayload)
    } else if cfg.general.health_bind_addr is Some && !checks.health_bind_addr_parses {
        Err(ConfigError::HealthBindAddr)
    } else {
        Ok(())
    }
}

/// Everything validation asks of a configuration, stated as one predicate.
pub open spec fn config_valid(cfg: RelayConfig, checks: AddressChecks) -> bool {
    &&& checks.source.address_parses
    &&& !cast_needs_udp(cfg.source)
    &&& !bad_multicast_interface(cfg.source, checks.source)
    &&& cfg.destinations@.len() > 0
    &&& forall|i: int|
        0 <= i < cfg.destinations@.len() ==> #[trigger] dest_problem(
            cfg.destinations@[i],
            checks.destinations@[i],
            i,
        ) is None
    &&& !zero_rate(cfg.rate_limit)
    &&& cfg.general.max_payload_size > 0
    &&& (cfg.general.health_bind_addr is Some ==> checks.health_bind_addr_parses)
}

/// The scan from `i` finds nothing exactly when no destination from `i` on
/// has a problem; when it finds one, that one belongs to some index `>= i`.
pub proof fn lemma_first_dest_problem(
    dests: Seq<DestConfig>,
    checks: Seq<EndpointChecks>,
    i: int,
)
    requires
        0 <= i <= dests.len(),
        checks.len() == dests.len(),
    ensures
        first_dest_problem(dests, checks, i) is None <==> (forall|j: int|
            i <= j < dests.len() ==> #[trigger] dest_problem(dests[j], checks[j], j) is None),
        first_dest_problem(dests, checks, i) is Some ==> exists|j: int|
            i <= j < dests.len() && #[trigger] dest_problem(dests[j], checks[j], j) == Some(
                first_dest_problem(dests, checks, i).unwrap(),
            ),
    decreases dests.len() - i,
{
    if i < dests.len() {
        lemma_first_dest_problem(dests, checks, i + 1);
        if dest_problem(dests[i], checks[i], i) is None {
            assert forall|j: int| i <= j < dests.len() && (forall|k: int|
                i + 1 <= k < dests.len() ==> #[trigger] dest_problem(
                    dests[k],
                    checks[k],
                    k,
                ) is None) implies #[trigger] dest_problem(dests[j], checks[j], j) is None by {
                if j > i {
                    assert(dest_problem(dests[j], checks[j], j) is None);
                }
            }
        }
    }
}

/// Validation succeeds exactly on the configurations that meet every rule.
pub proof fn lemma_validation_ok_iff_valid(cfg: RelayConfig, checks: AddressChecks)
    requires
        checks.destinations@.len() == cfg.destinations@.len(),
    ensures
        validation_result(cfg, checks) is Ok <==> config_valid(cfg, checks),
{
    lemma_first_dest_problem(cfg.destinations@, checks.destinations@, 0);
}

/// A global rate limit of zero bytes per second is refused, whatever the
/// rest of the configuration says.
pub proof fn law_zero_global_rate_is_rejected(cfg: RelayConfig, checks: AddressChecks)
    requires
        checks.destinations@.len() == cfg.destinations@.len(),
        zero_rate(cfg.rate_limit),
    ensures
        validation_result(cfg, checks) is Err,
{
    lemma_validation_ok_iff_valid(cfg, checks);
}

/// A destination with its own rate limit of zero bytes per second is
/// refused, whatever the rest of the configuration says.
pub proof fn law_zero_destination_rate_is_rejected(cfg: RelayConfig, checks: AddressChecks, i: int)
    requires
        checks.destinations@.len() == cfg.destinations@.len(),
        0 <= i < cfg.destinations@.len(),
        zero_rate(cfg.destinations@[i].rate_limit),
    ensures
        validation_result(cfg, checks) is Err,
{
    lemma_validation_ok_iff_valid(cfg, checks);
    assert(dest_problem(cfg.destinations@[i], checks.destinations@[i], i) is Some);
}

impl RelayConfig {
    /// Checks the rules of a configuration, given what the address parsers
    /// said about its strings, and reports the first rule it breaks.
    pub fn validate(&self, checks: &AddressChecks) -> (r: Result<(), ConfigError>)
        requires
            checks.destinations@.len() == self.destinations@.len(),
        ensures
            r == validation_result(*self, *checks),
    {
        let src = &self.source;
        if !checks.source.address_parses {
            return Err(ConfigError::SourceAddress);
        }
        if src.protocol == Protocol::Tcp && src.cast_mode != CastMode::Unicast {
            return Err(ConfigError::SourceCastNeedsUdp);
        }
        if src.cast_mode == CastMode::Multicast {
            if let Some(iface) = &src.multicast_interface {
                if iface.unicode_len() > 0 && !checks.source.interface_parses_v4 {
                    return Err(ConfigError::SourceMulticastInterface);
                }
            }
        }
        if self.destinations.len() == 0 {
            return Err(ConfigError::NoDestinations);
        }
        let n = self.destinations.len();
        let mut i: usize = 0;
        while i < n
            invariant
                n == self.destinations@.len(),
                n == checks.destinations@.len(),
                i <= n,
                n > 0,
                checks.source.address_parses,
                !cast_needs_udp(self.source),
                !bad_multicast_interface(self.source, checks.source),
                first_dest_problem(self.destinations@, checks.destinations@, 0)
                    == first_dest_problem(self.destinations@, checks.destinations@, i as int),
            decreases n - i,
        {
            let d = &self.destinations[i];
            let c = checks.destinations[i];
            let e = &d.base;
            proof {
                assert(first_dest_problem(self.destinations@, checks.destinations@, i as int)
                    == match dest_problem(*d, c, i as int) {
                    Some(e) => Some(e),
                    None => first_dest_problem(
                        self.destinations@,
                        checks.destinations@,
                        i + 1,
                    ),
                });
            }
            if !c.address_parses {
                return Err(ConfigError::DestinationAddress(i));
            }
            if e.protocol == Protocol::Tcp && e.cast_mode != CastMode::Unicast {
                return Err(ConfigError::DestinationCastNeedsUdp(i));
            }
            if e.cast_mode == CastMode::Multicast {
                if let Some(iface) = &e.multicast_interface {
                    if iface.unicode_len() > 0 && !c.interface_parses_v4 {
                        return Err(ConfigError::DestinationMulticastInterface(i));
                    }
                }
            }
            if let Some(rl) = &d.rate_limit {
                if rl.bytes_per_second == 0 {
                    return Err(ConfigError::DestinationZeroRate(i));
                }
            }
            i = i + 1;
        }
        if let Some(rl) = &self.rate_limit {
            if rl.bytes_per_second == 0 {
                return Err(ConfigError::ZeroGlobalRate);
            }
        }
        if self.general.max_payload_size == 0 {
            return Err(ConfigError::ZeroMaxPayload);
        }
        if self.general.health_bind_addr.is_some() && !checks.health_bind_addr_parses {
            return Err(ConfigError::HealthBindAddr);
        }
        Ok(())
    }
}

} // verus!

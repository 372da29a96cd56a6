use nexthop::config::defaults;
use nexthop::config::toml_writer::{to_toml_string, toml_str};
use nexthop::config::{
    AddressChecks, CastMode, DestConfig, EndpointChecks, EndpointConfig, EndpointMode,
    GeneralConfig, OverflowPolicy, Protocol, RateLimitConfig, RelayConfig, TransformConfig,
};
use nexthop::error::ConfigError;
use toml::Value;

// ── Reading the TOML shapes the tests use ──────────────────────────

fn table<'a>(v: &'a Value, key: &str) -> Result<&'a toml::map::Map<String, Value>, String> {
    v.get(key)
        .and_then(|x| x.as_table())
        .ok_or_else(|| format!("missing table {key}"))
}

fn opt_str(t: &toml::map::Map<String, Value>, key: &str) -> Result<Option<String>, String> {
    match t.get(key) {
        None => Ok(None),
        Some(v) => v.as_str().map(|s| Some(s.to_string())).ok_or(format!("{key}: not a string")),
    }
}

fn opt_int(t: &toml::map::Map<String, Value>, key: &str) -> Result<Option<i64>, String> {
    match t.get(key) {
        None => Ok(None),
        Some(v) => v.as_integer().map(Some).ok_or(format!("{key}: not an integer")),
    }
}

fn req_str(t: &toml::map::Map<String, Value>, key: &str) -> Result<String, String> {
    opt_str(t, key)?.ok_or(format!("missing {key}"))
}

fn rate_limit(v: Option<&Value>) -> Result<Option<RateLimitConfig>, String> {
    match v {
        None => Ok(None),
        Some(v) => {
            let t = v.as_table().ok_or("rate_limit: not a table")?;
            Ok(Some(RateLimitConfig {
                bytes_per_second: opt_int(t, "bytes_per_second")?.ok_or("missing bytes_per_second")?
                    as u64,
                burst_size: opt_int(t, "burst_size")?.map(|x| x as u64).unwrap_or(defaults::burst()),
            }))
        }
    }
}

fn endpoint(t: &toml::map::Map<String, Value>) -> Result<EndpointConfig, String> {
    let protocol = match req_str(t, "protocol")?.as_str() {
        "tcp" => Protocol::Tcp,
        "udp" => Protocol::Udp,
        other => return Err(format!("unknown protocol {other}")),
    };
    let mode = match req_str(t, "mode")?.as_str() {
        "server" => EndpointMode::Server,
        "client" => EndpointMode::Client,
        other => return Err(format!("unknown mode {other}")),
    };
    let cast_mode = match opt_str(t, "cast_mode")?.as_deref() {
        None => CastMode::default(),
        Some("unicast") => CastMode::Unicast,
        Some("broadcast") => CastMode::Broadcast,
        Some("multicast") => CastMode::Multicast,
        Some(other) => return Err(format!("unknown cast_mode {other}")),
    };
    Ok(EndpointConfig {
        name: opt_str(t, "name")?,
        protocol,
        mode,
        address: req_str(t, "address")?,
        cast_mode,
        multicast_interface: opt_str(t, "multicast_interface")?,
        multicast_interface_index: opt_int(t, "multicast_interface_index")?.map(|x| x as u32),
        multicast_ttl: opt_int(t, "multicast_ttl")?.map(|x| x as u32).unwrap_or(defaults::multicast_ttl()),
        reconnect_delay_ms: opt_int(t, "reconnect_delay_ms")?.map(|x| x as u64),
    })
}

fn transform(v: &Value) -> Result<TransformConfig, String> {
    let t = v.as_table().ok_or("transform: not a table")?;
    let n = || -> Result<usize, String> {
        Ok(opt_int(t, "n_bytes")?.ok_or("missing n_bytes")? as usize)
    };
    match req_str(t, "type")?.as_str() {
        "drop_smaller_than" => Ok(TransformConfig::DropSmallerThan { n_bytes: n()? }),
        "drop_larger_than" => Ok(TransformConfig::DropLargerThan { n_bytes: n()? }),
        "byte_swap_16" => Ok(TransformConfig::ByteSwap16),
        "byte_swap_32" => Ok(TransformConfig::ByteSwap32),
        other => Err(format!("unknown transform {other}")),
    }
}

fn parse(raw: &str) -> Result<RelayConfig, String> {
    let v: Value = toml::from_str(raw).map_err(|e| e.to_string())?;
    let g = table(&v, "general")?;
    let general = GeneralConfig {
        log_level: opt_str(g, "log_level")?.unwrap_or_else(defaults::log_level),
        stats_interval_secs: opt_int(g, "stats_interval_secs")?
            .map(|x| x as u64)
            .unwrap_or(defaults::stats_interval()),
        channel_capacity: opt_int(g, "channel_capacity")?
            .map(|x| x as usize)
            .unwrap_or(defaults::channel_capacity()),
        max_payload_size: opt_int(g, "max_payload_size")?
            .map(|x| x as usize)
            .unwrap_or(defaults::max_payload()),
        health_port: opt_int(g, "health_port")?.map(|x| x as u16),
        health_bind_addr: opt_str(g, "health_bind_addr")?,
    };
    let source = endpoint(table(&v, "source")?)?;
    let dests = v
        .get("destinations")
        .and_then(|d| d.as_array())
        .ok_or("missing destinations")?;
    let mut destinations = Vec::new();
    for d in dests {
        let t = d.as_table().ok_or("destination: not a table")?;
        let overflow_policy = match opt_str(t, "overflow_policy")?.as_deref() {
            None => OverflowPolicy::default(),
            Some("drop_newest") => OverflowPolicy::DropNewest,
            Some("block") => OverflowPolicy::Block,
            Some(other) => return Err(format!("unknown overflow_policy {other}")),
        };
        let transforms = match t.get("transforms") {
            None => Vec::new(),
            Some(a) => a
                .as_array()
                .ok_or("transforms: not an array")?
                .iter()
                .map(transform)
                .collect::<Result<Vec<_>, _>>()?,
        };
        destinations.push(DestConfig {
            base: endpoint(t)?,
            overflow_policy,
            rate_limit: rate_limit(t.get("rate_limit"))?,
            transforms,
        });
    }
    Ok(RelayConfig { general, source, rate_limit: rate_limit(v.get("rate_limit"))?, destinations })
}

// ── What the address parsers report for the strings the tests use ──

fn ipv4_ok(s: &str) -> bool {
    let parts: Vec<&str> = s.split('.').collect();
    parts.len() == 4 && parts.iter().all(|p| !p.is_empty() && p.parse::<u8>().is_ok())
}

fn ipv6_ok(s: &str) -> bool {
    s.contains(':') && s.chars().all(|c| c == ':' || c.is_ascii_hexdigit())
}

fn socket_addr_ok(s: &str) -> bool {
    match s.rsplit_once(':') {
        Some((host, port)) if port.parse::<u16>().is_ok() => {
            ipv4_ok(host)
                || (host.starts_with('[') && host.ends_with(']') && ipv6_ok(&host[1..host.len() - 1]))
        }
        _ => false,
    }
}

fn endpoint_checks(e: &EndpointConfig) -> EndpointChecks {
    EndpointChecks {
        address_parses: socket_addr_ok(&e.address),
        interface_parses_v4: e.multicast_interface.as_deref().map(ipv4_ok).unwrap_or(false),
    }
}

fn checks(cfg: &RelayConfig) -> AddressChecks {
    AddressChecks {
        source: endpoint_checks(&cfg.source),
        destinations: cfg.destinations.iter().map(|d| endpoint_checks(&d.base)).collect(),
        health_bind_addr_parses: cfg
            .general
            .health_bind_addr
            .as_deref()
            .map(|a| ipv4_ok(a) || ipv6_ok(a))
            .unwrap_or(false),
    }
}

fn validate(cfg: &RelayConfig) -> Result<(), ConfigError> {
    cfg.validate(&checks(cfg))
}

fn minimal_cfg(src_proto: &str, dst_proto: &str) -> String {
    format!(
        r#"
[general]
[source]
protocol = "{src_proto}"
mode     = "server"
address  = "127.0.0.1:10000"
[[destinations]]
protocol = "{dst_proto}"
mode     = "client"
address  = "127.0.0.1:20000"
"#
    )
}

fn default_endpoint() -> EndpointConfig {
    EndpointConfig {
        name: None,
        protocol: Protocol::Tcp,
        mode: EndpointMode::Server,
        address: "127.0.0.1:10000".into(),
        cast_mode: CastMode::Unicast,
        multicast_interface: None,
        multicast_interface_index: None,
        multicast_ttl: 2,
        reconnect_delay_ms: None,
    }
}

// ── Tests ──────────────────────────────────────────────────────────

#[test]
fn parse_minimal_tcp_tcp() {
    let cfg = parse(&minimal_cfg("tcp", "tcp")).unwrap();
    validate(&cfg).unwrap();
    assert_eq!(cfg.destinations.len(), 1);
}

#[test]
fn parse_cross_protocol() {
    let cfg = parse(&minimal_cfg("tcp", "udp")).unwrap();
    validate(&cfg).unwrap();
}

#[test]
fn reject_empty_destinations() {
    let raw = r#"
[general]
[source]
protocol = "tcp"
mode     = "server"
address  = "127.0.0.1:10000"
"#;
    assert!(parse(raw).is_err());
}

#[test]
fn reject_tcp_multicast_destination() {
    let raw = r#"
[general]
[source]
protocol = "tcp"
mode     = "server"
address  = "127.0.0.1:10000"
[[destinations]]
protocol  = "tcp"
mode      = "client"
address   = "127.0.0.1:20000"
cast_mode = "multicast"
"#;
    let cfg = parse(raw).unwrap();
    assert!(validate(&cfg).is_err());
}

#[test]
fn reject_tcp_multicast_source() {
    let raw = r#"
[general]
[source]
protocol  = "tcp"
mode      = "server"
address   = "127.0.0.1:10000"
cast_mode = "multicast"
[[destinations]]
protocol = "udp"
mode     = "client"
address  = "127.0.0.1:20000"
"#;
    let cfg = parse(raw).unwrap();
    assert!(validate(&cfg).is_err());
}

#[test]
fn reject_zero_rate() {
    let raw = r#"
[general]
[source]
protocol = "tcp"
mode     = "server"
address  = "127.0.0.1:10000"
[rate_limit]
bytes_per_second = 0
[[destinations]]
protocol = "tcp"
mode     = "client"
address  = "127.0.0.1:20000"
"#;
    let cfg = parse(raw).unwrap();
    assert!(validate(&cfg).is_err());
}

#[test]
fn default_values_applied() {
    let cfg = parse(&minimal_cfg("udp", "udp")).unwrap();
    assert_eq!(cfg.general.max_payload_size, 65535);
    assert_eq!(cfg.general.channel_capacity, 1024);
    assert_eq!(cfg.general.stats_interval_secs, 30);
}

#[test]
fn roundtrip_toml() {
    let cfg = parse(&minimal_cfg("tcp", "udp")).unwrap();
    let toml_str = to_toml_string(&cfg);
    let cfg2 = parse(&toml_str).unwrap();
    assert_eq!(cfg, cfg2);
}

#[test]
fn display_name_uses_name_field() {
    let e = EndpointConfig { name: Some("my-source".into()), ..default_endpoint() };
    assert_eq!(e.display_name(), "my-source");
}

#[test]
fn display_name_falls_back_to_address() {
    let e = EndpointConfig { name: None, ..default_endpoint() };
    assert_eq!(e.display_name(), e.address);
}

#[test]
fn reconnect_delay_default_is_2000ms() {
    let e = EndpointConfig { reconnect_delay_ms: None, ..default_endpoint() };
    assert_eq!(e.reconnect_delay(), 2000);
}

#[test]
fn reconnect_delay_custom() {
    let e = EndpointConfig { reconnect_delay_ms: Some(500), ..default_endpoint() };
    assert_eq!(e.reconnect_delay(), 500);
}

#[test]
fn reject_zero_max_payload() {
    let raw = r#"
[general]
max_payload_size = 0
[source]
protocol = "tcp"
mode     = "server"
address  = "127.0.0.1:10000"
[[destinations]]
protocol = "tcp"
mode     = "client"
address  = "127.0.0.1:20000"
"#;
    let cfg = parse(raw).unwrap();
    assert!(validate(&cfg).is_err());
}

#[test]
fn reject_invalid_multicast_iface_source() {
    let raw = r#"
[general]
[source]
protocol = "udp"
mode = "server"
address = "224.0.0.1:9000"
cast_mode = "multicast"
multicast_interface = "eth0"
[[destinations]]
protocol = "udp"
mode = "client"
address = "127.0.0.1:20000"
"#;
    let cfg = parse(raw).unwrap();
    assert!(validate(&cfg).is_err());
}

#[test]
fn reject_invalid_multicast_iface_dest() {
    let raw = r#"
[general]
[source]
protocol = "tcp"
mode = "server"
address = "127.0.0.1:10000"
[[destinations]]
protocol = "udp"
mode = "client"
address = "224.0.0.1:9000"
cast_mode = "multicast"
multicast_interface = "eth0"
"#;
    let cfg = parse(raw).unwrap();
    assert!(validate(&cfg).is_err());
}

#[test]
fn toml_string_escapes_quotes_in_name() {
    let mut cfg = parse(&minimal_cfg("tcp", "tcp")).unwrap();
    cfg.source.name = Some(r#"my "named" source"#.into());
    let s = to_toml_string(&cfg);
    let cfg2 = parse(&s).unwrap();
    assert_eq!(cfg2.source.name.unwrap(), r#"my "named" source"#);
}

#[test]
fn cast_mode_default_is_unicast() {
    assert_eq!(CastMode::default(), CastMode::Unicast);
}

#[test]
fn overflow_policy_default_is_drop_newest() {
    assert_eq!(OverflowPolicy::default(), OverflowPolicy::DropNewest);
}

#[test]
fn reject_tcp_broadcast_source() {
    let raw = r#"
[general]
[source]
protocol  = "tcp"
mode      = "server"
address   = "0.0.0.0:10000"
cast_mode = "broadcast"
[[destinations]]
protocol = "udp"
mode     = "client"
address  = "127.0.0.1:20000"
"#;
    let cfg = parse(raw).unwrap();
    assert!(validate(&cfg).is_err());
}

#[test]
fn reject_tcp_broadcast_destination() {
    let raw = r#"
[general]
[source]
protocol = "tcp"
mode     = "server"
address  = "127.0.0.1:10000"
[[destinations]]
protocol  = "tcp"
mode      = "client"
address   = "127.0.0.1:20000"
cast_mode = "broadcast"
"#;
    let cfg = parse(raw).unwrap();
    assert!(validate(&cfg).is_err());
}

#[test]
fn valid_multicast_interface_ip_passes() {
    let raw = r#"
[general]
[source]
protocol             = "udp"
mode                 = "server"
address              = "224.0.0.1:9000"
cast_mode            = "multicast"
multicast_interface  = "192.168.1.1"
[[destinations]]
protocol = "udp"
mode     = "client"
address  = "127.0.0.1:20000"
"#;
    let cfg = parse(raw).unwrap();
    assert!(validate(&cfg).is_ok());
}

#[test]
fn valid_multicast_dest_interface_ip_passes() {
    let raw = r#"
[general]
[source]
protocol = "tcp"
mode     = "server"
address  = "127.0.0.1:10000"
[[destinations]]
protocol             = "udp"
mode                 = "client"
address              = "224.0.0.1:9000"
cast_mode            = "multicast"
multicast_interface  = "10.0.0.1"
"#;
    let cfg = parse(raw).unwrap();
    assert!(validate(&cfg).is_ok());
}

#[test]
fn toml_string_includes_rate_limit() {
    let raw = r#"
[general]
[source]
protocol = "tcp"
mode     = "server"
address  = "127.0.0.1:10000"
[rate_limit]
bytes_per_second = 1000000
burst_size       = 131072
[[destinations]]
protocol = "tcp"
mode     = "client"
address  = "127.0.0.1:20000"
"#;
    let cfg = parse(raw).unwrap();
    let out = to_toml_string(&cfg);
    assert!(out.contains("bytes_per_second"), "missing bytes_per_second:\n{out}");
    assert!(out.contains("burst_size"), "missing burst_size:\n{out}");
    let cfg2 = parse(&out).unwrap();
    assert_eq!(cfg, cfg2);
}

#[test]
fn toml_string_includes_health_port() {
    let raw = r#"
[general]
health_port = 9090
[source]
protocol = "tcp"
mode     = "server"
address  = "127.0.0.1:10000"
[[destinations]]
protocol = "tcp"
mode     = "client"
address  = "127.0.0.1:20000"
"#;
    let cfg = parse(raw).unwrap();
    let out = to_toml_string(&cfg);
    assert!(out.contains("health_port"), "missing health_port:\n{out}");
    let cfg2 = parse(&out).unwrap();
    assert_eq!(cfg.general.health_port, cfg2.general.health_port);
}

#[test]
fn toml_string_includes_multicast_fields() {
    let raw = r#"
[general]
[source]
protocol              = "udp"
mode                  = "server"
address               = "224.0.0.1:9000"
cast_mode             = "multicast"
multicast_interface   = "192.168.1.1"
multicast_ttl         = 32
[[destinations]]
protocol = "udp"
mode     = "client"
address  = "127.0.0.1:20000"
"#;
    let cfg = parse(raw).unwrap();
    let out = to_toml_string(&cfg);
    let cfg2 = parse(&out).unwrap();
    assert_eq!(cfg.source.cast_mode, cfg2.source.cast_mode);
    assert_eq!(cfg.source.multicast_interface, cfg2.source.multicast_interface);
    assert_eq!(cfg.source.multicast_ttl, cfg2.source.multicast_ttl);
}

#[test]
fn toml_string_includes_reconnect_delay() {
    let raw = r#"
[general]
[source]
protocol           = "tcp"
mode               = "client"
address            = "127.0.0.1:10000"
reconnect_delay_ms = 500
[[destinations]]
protocol = "tcp"
mode     = "client"
address  = "127.0.0.1:20000"
"#;
    let cfg = parse(raw).unwrap();
    let out = to_toml_string(&cfg);
    assert!(out.contains("reconnect_delay_ms"), "missing field:\n{out}");
    let cfg2 = parse(&out).unwrap();
    assert_eq!(cfg.source.reconnect_delay_ms, cfg2.source.reconnect_delay_ms);
}

#[test]
fn toml_string_includes_overflow_block() {
    let raw = r#"
[general]
[source]
protocol = "tcp"
mode     = "server"
address  = "127.0.0.1:10000"
[[destinations]]
protocol         = "tcp"
mode             = "client"
address          = "127.0.0.1:20000"
overflow_policy  = "block"
"#;
    let cfg = parse(raw).unwrap();
    let out = to_toml_string(&cfg);
    assert!(out.contains("overflow_policy"), "missing overflow_policy:\n{out}");
    let cfg2 = parse(&out).unwrap();
    assert_eq!(cfg.destinations[0].overflow_policy, cfg2.destinations[0].overflow_policy);
}

#[test]
fn burst_default_is_131072() {
    assert_eq!(defaults::burst(), 131_072);
}

#[test]
fn multicast_ttl_default_is_16() {
    assert_eq!(defaults::multicast_ttl(), 16);
}

#[test]
fn multiple_destinations_roundtrip() {
    let raw = r#"
[general]
[source]
protocol = "udp"
mode     = "server"
address  = "0.0.0.0:5000"
[[destinations]]
protocol = "udp"
mode     = "client"
address  = "10.0.0.1:5001"
[[destinations]]
protocol = "tcp"
mode     = "client"
address  = "10.0.0.2:5002"
[[destinations]]
protocol = "udp"
mode     = "client"
address  = "10.0.0.3:5003"
"#;
    let cfg = parse(raw).unwrap();
    assert_eq!(cfg.destinations.len(), 3);
    let out = to_toml_string(&cfg);
    let cfg2 = parse(&out).unwrap();
    assert_eq!(cfg, cfg2);
}

#[test]
fn dest_config_display_name_via_deref() {
    let raw = r#"
[general]
[source]
protocol = "tcp"
mode     = "server"
address  = "127.0.0.1:10000"
[[destinations]]
name     = "my-dest"
protocol = "tcp"
mode     = "client"
address  = "127.0.0.1:20000"
"#;
    let cfg = parse(raw).unwrap();
    assert_eq!(cfg.destinations[0].display_name(), "my-dest");
}

#[test]
fn dest_config_reconnect_delay_via_deref() {
    let raw = r#"
[general]
[source]
protocol = "tcp"
mode     = "server"
address  = "127.0.0.1:10000"
[[destinations]]
protocol           = "tcp"
mode               = "client"
address            = "127.0.0.1:20000"
reconnect_delay_ms = 750
"#;
    let cfg = parse(raw).unwrap();
    assert_eq!(cfg.destinations[0].reconnect_delay(), 750);
}

#[test]
fn toml_str_helper_escapes_backslash_and_newline() {
    let mut cfg = parse(&minimal_cfg("tcp", "tcp")).unwrap();
    cfg.source.name = Some("path\\to\nsomething".into());
    let s = to_toml_string(&cfg);
    let cfg2 = parse(&s).unwrap();
    assert_eq!(cfg2.source.name.unwrap(), "path\\to\nsomething");
}

#[test]
fn omitting_rate_limit_produces_no_section() {
    let cfg = parse(&minimal_cfg("tcp", "tcp")).unwrap();
    let out = to_toml_string(&cfg);
    assert!(!out.contains("[rate_limit]"), "unexpected section:\n{out}");
}

#[test]
fn cast_mode_unicast_omitted_from_toml() {
    let cfg = parse(&minimal_cfg("udp", "udp")).unwrap();
    let out = to_toml_string(&cfg);
    assert!(!out.contains("cast_mode"), "unexpected field:\n{out}");
}

#[test]
fn multicast_ttl_default_omitted_from_toml() {
    let raw = r#"
[general]
[source]
protocol   = "udp"
mode       = "server"
address    = "224.0.0.1:9000"
cast_mode  = "multicast"
[[destinations]]
protocol = "udp"
mode     = "client"
address  = "127.0.0.1:20000"
"#;
    let cfg = parse(raw).unwrap();
    assert_eq!(cfg.source.multicast_ttl, 16);
    let out = to_toml_string(&cfg);
    assert!(!out.contains("multicast_ttl"), "default TTL should be omitted:\n{out}");
}

// ── Further cases ──────────────────────────────────────────────────

#[test]
fn validation_reports_the_first_broken_rule() {
    let mut cfg = parse(&minimal_cfg("tcp", "tcp")).unwrap();
    cfg.general.max_payload_size = 0;
    cfg.rate_limit = Some(RateLimitConfig { bytes_per_second: 0, burst_size: 1 });
    assert_eq!(validate(&cfg), Err(ConfigError::ZeroGlobalRate));
    cfg.destinations[0].base.cast_mode = CastMode::Broadcast;
    assert_eq!(validate(&cfg), Err(ConfigError::DestinationCastNeedsUdp(0)));
    cfg.destinations.clear();
    assert_eq!(validate(&cfg), Err(ConfigError::NoDestinations));
}

#[test]
fn every_error_kind_has_its_input() {
    let base = parse(&minimal_cfg("udp", "udp")).unwrap();
    let mut c = base.clone();
    c.source.address = "not-an-address".into();
    assert_eq!(validate(&c), Err(ConfigError::SourceAddress));
    let mut c = base.clone();
    c.destinations[0].base.address = "nowhere".into();
    assert_eq!(validate(&c), Err(ConfigError::DestinationAddress(0)));
    let mut c = base.clone();
    c.source.cast_mode = CastMode::Multicast;
    c.source.multicast_interface = Some("eth0".into());
    assert_eq!(validate(&c), Err(ConfigError::SourceMulticastInterface));
    let mut c = base.clone();
    c.destinations[0].base.cast_mode = CastMode::Multicast;
    c.destinations[0].base.multicast_interface = Some("eth0".into());
    assert_eq!(validate(&c), Err(ConfigError::DestinationMulticastInterface(0)));
    let mut c = base.clone();
    c.destinations[0].rate_limit = Some(RateLimitConfig { bytes_per_second: 0, burst_size: 1 });
    assert_eq!(validate(&c), Err(ConfigError::DestinationZeroRate(0)));
    let mut c = base.clone();
    c.source.protocol = Protocol::Tcp;
    c.source.cast_mode = CastMode::Broadcast;
    assert_eq!(validate(&c), Err(ConfigError::SourceCastNeedsUdp));
    let mut c = base.clone();
    c.general.max_payload_size = 0;
    assert_eq!(validate(&c), Err(ConfigError::ZeroMaxPayload));
    let mut c = base.clone();
    c.general.health_bind_addr = Some("localhost".into());
    assert_eq!(validate(&c), Err(ConfigError::HealthBindAddr));
    let mut c = base.clone();
    c.general.health_bind_addr = Some("::1".into());
    assert_eq!(validate(&c), Ok(()));
}

#[test]
fn empty_multicast_interface_is_accepted() {
    let mut c = parse(&minimal_cfg("udp", "udp")).unwrap();
    c.source.cast_mode = CastMode::Multicast;
    c.source.multicast_interface = Some(String::new());
    assert_eq!(validate(&c), Ok(()));
}

#[test]
fn error_messages_name_the_destination() {
    let mut c = parse(&minimal_cfg("udp", "udp")).unwrap();
    c.destinations.push(c.destinations[0].clone());
    c.destinations[1].base.address = "nowhere".into();
    let e = validate(&c).unwrap_err();
    assert_eq!(e, ConfigError::DestinationAddress(1));
    assert_eq!(
        e.describe(&c),
        "configuration error: destination[1]: invalid address 'nowhere': invalid socket address syntax"
    );
    let mut c2 = parse(&minimal_cfg("udp", "udp")).unwrap();
    c2.general.health_bind_addr = Some("localhost".into());
    assert_eq!(
        ConfigError::HealthBindAddr.describe(&c2),
        "configuration error: general.health_bind_addr 'localhost' is not a valid IP address: invalid IP address syntax"
    );
    assert_eq!(
        ConfigError::SourceAddress.describe(&c2),
        "address parse error: invalid socket address syntax"
    );
}

#[test]
fn toml_str_escapes_each_special_character() {
    assert_eq!(toml_str("plain"), "\"plain\"");
    assert_eq!(toml_str("a\"b"), "\"a\\\"b\"");
    assert_eq!(toml_str("c:\\x"), "\"c:\\\\x\"");
    assert_eq!(toml_str("l1\nl2\r"), "\"l1\\nl2\\r\"");
}

#[test]
fn toml_output_for_a_full_configuration() {
    let mut cfg = parse(&minimal_cfg("udp", "udp")).unwrap();
    cfg.general.health_port = Some(9090);
    cfg.rate_limit = Some(RateLimitConfig { bytes_per_second: 10, burst_size: 20 });
    cfg.destinations[0].overflow_policy = OverflowPolicy::Block;
    cfg.destinations[0].rate_limit = Some(RateLimitConfig { bytes_per_second: 1, burst_size: 2 });
    cfg.destinations[0].transforms = vec![
        TransformConfig::DropSmallerThan { n_bytes: 4 },
        TransformConfig::ByteSwap16,
    ];
    let out = to_toml_string(&cfg);
    let back = parse(&out).unwrap();
    assert_eq!(back, cfg);
    assert!(out.contains("[[destinations.transforms]]\ntype = \"drop_smaller_than\"\nn_bytes = 4\n"), "{out}");
}

#[test]
fn valid_configurations_roundtrip_through_toml() {
    let mut cfg = parse(&minimal_cfg("tcp", "udp")).unwrap();
    for (i, name) in [None, Some("a-1"), Some("Z9")].iter().enumerate() {
        cfg.source.name = name.map(|s| s.to_string());
        cfg.source.reconnect_delay_ms = Some(100 + i as u64);
        cfg.general.log_level = ["trace", "debug", "warn"][i].to_string();
        cfg.general.health_bind_addr = [None, Some("127.0.0.1"), Some("::")][i].map(|s| s.to_string());
        assert!(validate(&cfg).is_ok());
        let back = parse(&to_toml_string(&cfg)).unwrap();
        assert_eq!(back, cfg);
    }
}

#[test]
fn zero_rates_are_rejected_whatever_else_holds() {
    let mut cfg = parse(&minimal_cfg("tcp", "udp")).unwrap();
    cfg.destinations.push(cfg.destinations[0].clone());
    cfg.rate_limit = Some(RateLimitConfig { bytes_per_second: 0, burst_size: 1 });
    assert!(validate(&cfg).is_err());
    cfg.rate_limit = None;
    cfg.destinations[1].rate_limit = Some(RateLimitConfig { bytes_per_second: 0, burst_size: 1 });
    assert!(validate(&cfg).is_err());
}

#[test]
fn toml_strings_read_back_and_stay_on_one_line() {
    let raw = "a\"b\\c\nd\re";
    let quoted = toml_str(raw);
    let body = &quoted[1..quoted.len() - 1];
    assert!(!body.contains('\n') && !body.contains('\r'));
    let back: toml::Value = toml::from_str(&format!("k = {quoted}")).unwrap();
    assert_eq!(back.get("k").and_then(|v| v.as_str()), Some(raw));
}

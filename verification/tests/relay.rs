use nexthop::config::{
    CastMode, DestConfig, EndpointConfig, EndpointMode, GeneralConfig, OverflowPolicy, Protocol,
    RateLimitConfig, RelayConfig,
};
use nexthop::rate_limiter::RateLimiter;
use nexthop::relay::health::{resolve_health_bind_addrs, BindTarget, ConfiguredBind, IpValue};
use nexthop::relay::{
    accept_datagram, diff_destinations, handoff_plan, note_handoff, policy_to_u8, u8_to_policy,
    DestKey, DestRuntime, DiffPlan, Handoff, LimiterChoice, Relay,
};
use nexthop::stats::Stats;

fn endpoint(protocol: Protocol, mode: EndpointMode, address: &str) -> EndpointConfig {
    EndpointConfig {
        name: None,
        protocol,
        mode,
        address: address.to_string(),
        cast_mode: CastMode::Unicast,
        multicast_interface: None,
        multicast_interface_index: None,
        multicast_ttl: 16,
        reconnect_delay_ms: None,
    }
}

fn dest(protocol: Protocol, mode: EndpointMode, address: &str) -> DestConfig {
    DestConfig {
        base: endpoint(protocol, mode, address),
        overflow_policy: OverflowPolicy::DropNewest,
        rate_limit: None,
        transforms: vec![],
    }
}

fn general() -> GeneralConfig {
    GeneralConfig {
        log_level: "info".to_string(),
        stats_interval_secs: 30,
        channel_capacity: 1024,
        max_payload_size: 65535,
        health_port: None,
        health_bind_addr: None,
    }
}

fn config(source: EndpointConfig, destinations: Vec<DestConfig>) -> RelayConfig {
    RelayConfig { general: general(), source, rate_limit: None, destinations }
}

fn test_config() -> RelayConfig {
    config(
        endpoint(Protocol::Tcp, EndpointMode::Server, "127.0.0.1:0"),
        vec![dest(Protocol::Tcp, EndpointMode::Client, "127.0.0.1:0")],
    )
}

#[test]
fn relay_new_creates_correct_stats_labels() {
    let relay = Relay::new(test_config(), "/tmp/test.toml".to_string());
    assert!(
        relay.source_stats.label.starts_with("source("),
        "label: {}",
        relay.source_stats.label
    );
    assert_eq!(relay.dest_stats.len(), 1);
    assert!(
        relay.dest_stats[0].label.starts_with("dest("),
        "label: {}",
        relay.dest_stats[0].label
    );
}

#[test]
fn relay_new_stats_count_matches_destinations() {
    let mut cfg = test_config();
    cfg.destinations.push(cfg.destinations[0].clone());
    let relay = Relay::new(cfg, "/tmp/test.toml".to_string());
    assert_eq!(relay.dest_stats.len(), 2);
}

#[test]
fn relay_new_source_addr_fields_server_mode() {
    let cfg = config(
        endpoint(Protocol::Tcp, EndpointMode::Server, "0.0.0.0:5000"),
        vec![dest(Protocol::Tcp, EndpointMode::Client, "127.0.0.1:0")],
    );
    let relay = Relay::new(cfg, "/tmp/t.toml".to_string());
    assert_eq!(relay.source_stats.local_addr, "0.0.0.0:5000");
    assert_eq!(relay.source_stats.peer_addr, "(any)");
}

#[test]
fn relay_new_source_addr_fields_client_mode() {
    let cfg = config(
        endpoint(Protocol::Tcp, EndpointMode::Client, "10.0.0.1:9000"),
        vec![dest(Protocol::Tcp, EndpointMode::Client, "127.0.0.1:0")],
    );
    let relay = Relay::new(cfg, "/tmp/t.toml".to_string());
    assert_eq!(relay.source_stats.local_addr, "(auto)");
    assert_eq!(relay.source_stats.peer_addr, "10.0.0.1:9000");
}

#[test]
fn relay_new_dest_addr_fields_client_mode() {
    let cfg = config(
        endpoint(Protocol::Tcp, EndpointMode::Server, "0.0.0.0:5000"),
        vec![dest(Protocol::Udp, EndpointMode::Client, "192.168.1.5:6000")],
    );
    let relay = Relay::new(cfg, "/tmp/t.toml".to_string());
    assert_eq!(relay.dest_stats[0].local_addr, "(auto)");
    assert_eq!(relay.dest_stats[0].peer_addr, "192.168.1.5:6000");
}

#[test]
fn relay_new_dest_addr_fields_server_mode() {
    let cfg = config(
        endpoint(Protocol::Tcp, EndpointMode::Server, "0.0.0.0:5000"),
        vec![dest(Protocol::Udp, EndpointMode::Server, "0.0.0.0:7000")],
    );
    let relay = Relay::new(cfg, "/tmp/t.toml".to_string());
    assert_eq!(relay.dest_stats[0].local_addr, "0.0.0.0:7000");
    assert_eq!(relay.dest_stats[0].peer_addr, "(any)");
}

#[test]
fn relay_new_labels_use_names() {
    let mut cfg = test_config();
    cfg.source.name = Some("ingest".into());
    cfg.destinations[0].base.name = Some("backend".into());
    let relay = Relay::new(cfg, "/tmp/t.toml".to_string());
    assert_eq!(relay.source_stats.label, "source(ingest)");
    assert_eq!(relay.dest_stats[0].label, "dest(backend)");
    assert_eq!(relay.stats_interval_secs, 30);
    assert!(relay.limiter.is_none());
}

// ── Per-destination limiter choice ─────────────────────────────────

fn rl_cfg(bps: u64, burst: u64) -> RateLimitConfig {
    RateLimitConfig { bytes_per_second: bps, burst_size: burst }
}

#[test]
fn effective_limiter_returns_none_when_neither_set() {
    let runtime = DestRuntime::new(OverflowPolicy::DropNewest, 2000, None);
    assert_eq!(runtime.effective_limiter(false), LimiterChoice::Unlimited);
}

#[test]
fn effective_limiter_uses_global_when_only_global_set() {
    let runtime = DestRuntime::new(OverflowPolicy::DropNewest, 2000, None);
    let _global_rl = RateLimiter::new(1_000, 5_000);
    assert_eq!(runtime.effective_limiter(true), LimiterChoice::Global);
}

#[test]
fn effective_limiter_uses_private_when_only_private_set() {
    let runtime = DestRuntime::new(OverflowPolicy::DropNewest, 2000, Some(&rl_cfg(500, 1_000)));
    assert_eq!(runtime.effective_limiter(false), LimiterChoice::Private);
}

#[test]
fn effective_limiter_private_wins_when_both_set() {
    let runtime = DestRuntime::new(OverflowPolicy::DropNewest, 2000, Some(&rl_cfg(500, 1_000)));
    let _global_rl = RateLimiter::new(1_000_000, 5_000_000);
    assert_eq!(
        runtime.effective_limiter(true),
        LimiterChoice::Private,
        "private limiter must override global"
    );
}

#[test]
fn set_private_limiter_clears_to_none() {
    let mut runtime =
        DestRuntime::new(OverflowPolicy::DropNewest, 2000, Some(&rl_cfg(500, 1_000)));
    assert_ne!(runtime.effective_limiter(false), LimiterChoice::Unlimited);
    runtime.set_private_limiter(None);
    assert_eq!(runtime.effective_limiter(false), LimiterChoice::Unlimited);
}

#[test]
fn runtime_setters_store_what_they_are_given() {
    let mut runtime = DestRuntime::new(OverflowPolicy::DropNewest, 2000, None);
    assert_eq!(runtime.policy(), OverflowPolicy::DropNewest);
    assert_eq!(runtime.reconnect_delay(), 2000);
    runtime.set_policy(OverflowPolicy::Block);
    runtime.set_reconnect_delay_ms(750);
    assert_eq!(runtime.policy(), OverflowPolicy::Block);
    assert_eq!(runtime.reconnect_delay(), 750);
}

#[test]
fn policy_codes_round_trip() {
    for p in [OverflowPolicy::DropNewest, OverflowPolicy::Block] {
        assert_eq!(u8_to_policy(policy_to_u8(p)), p);
    }
    assert_eq!(policy_to_u8(OverflowPolicy::DropNewest), 0);
    assert_eq!(policy_to_u8(OverflowPolicy::Block), 1);
    assert_eq!(u8_to_policy(7), OverflowPolicy::DropNewest);
}

// ── Destination diff ───────────────────────────────────────────────

fn dest_cfg(address: &str) -> DestConfig {
    dest(Protocol::Tcp, EndpointMode::Client, address)
}

#[test]
fn diff_destinations_empty_to_empty() {
    let plan = diff_destinations(&[], &[]);
    assert_eq!(plan, DiffPlan::default());
}

#[test]
fn diff_destinations_pure_add() {
    let a = dest_cfg("127.0.0.1:1");
    let plan = diff_destinations(&[], std::slice::from_ref(&a));
    assert_eq!(plan.added, vec![DestKey::from_cfg(&a)]);
    assert!(plan.removed.is_empty());
    assert!(plan.kept.is_empty());
}

#[test]
fn diff_destinations_pure_remove() {
    let a = dest_cfg("127.0.0.1:1");
    let plan = diff_destinations(std::slice::from_ref(&a), &[]);
    assert_eq!(plan.removed, vec![DestKey::from_cfg(&a)]);
    assert!(plan.added.is_empty());
    assert!(plan.kept.is_empty());
}

#[test]
fn diff_destinations_identity_change_is_add_plus_remove() {
    let a = dest_cfg("127.0.0.1:1");
    let b = dest_cfg("127.0.0.1:2");
    let plan = diff_destinations(std::slice::from_ref(&a), std::slice::from_ref(&b));
    assert_eq!(plan.added, vec![DestKey::from_cfg(&b)]);
    assert_eq!(plan.removed, vec![DestKey::from_cfg(&a)]);
    assert!(plan.kept.is_empty());
}

#[test]
fn diff_destinations_policy_change_is_kept_not_add_remove() {
    let mut a = dest_cfg("127.0.0.1:1");
    let b = a.clone();
    a.overflow_policy = OverflowPolicy::Block;
    let plan = diff_destinations(std::slice::from_ref(&a), std::slice::from_ref(&b));
    assert!(plan.added.is_empty());
    assert!(plan.removed.is_empty());
    assert_eq!(plan.kept, vec![DestKey::from_cfg(&a)]);
}

#[test]
fn diff_destinations_partial_overlap() {
    let a = dest_cfg("127.0.0.1:1");
    let b = dest_cfg("127.0.0.1:2");
    let c = dest_cfg("127.0.0.1:3");
    let old = vec![a.clone(), b.clone()];
    let new = vec![b.clone(), c.clone()];
    let plan = diff_destinations(&old, &new);
    assert_eq!(plan.added, vec![DestKey::from_cfg(&c)]);
    assert_eq!(plan.removed, vec![DestKey::from_cfg(&a)]);
    assert_eq!(plan.kept, vec![DestKey::from_cfg(&b)]);
}

#[test]
fn diff_destinations_lists_a_repeated_key_once() {
    let a = dest_cfg("127.0.0.1:1");
    let plan = diff_destinations(&[], &[a.clone(), a.clone()]);
    assert_eq!(plan.added, vec![DestKey::from_cfg(&a)]);
}

#[test]
fn dest_key_ignores_fields_that_change_in_place() {
    let a = dest_cfg("127.0.0.1:1");
    let mut b = a.clone();
    b.base.name = Some("renamed".into());
    b.base.reconnect_delay_ms = Some(10);
    b.rate_limit = Some(rl_cfg(1, 1));
    assert_eq!(DestKey::from_cfg(&a), DestKey::from_cfg(&b));
    let mut c = a.clone();
    c.base.protocol = Protocol::Udp;
    assert_ne!(DestKey::from_cfg(&a), DestKey::from_cfg(&c));
}

// ── Source intake and fan-out ──────────────────────────────────────

#[test]
fn send_to_all_fan_out_reaches_multiple_channels() {
    let runtimes = vec![
        DestRuntime::new(OverflowPolicy::Block, 2000, None),
        DestRuntime::new(OverflowPolicy::Block, 2000, None),
    ];
    assert_eq!(handoff_plan(&runtimes), vec![Handoff::Send, Handoff::Send]);
}

#[test]
fn send_to_all_drop_newest_increments_dropped() {
    let runtimes = vec![
        DestRuntime::new(OverflowPolicy::DropNewest, 2000, None),
        DestRuntime::new(OverflowPolicy::Block, 2000, None),
    ];
    let plan = handoff_plan(&runtimes);
    assert_eq!(plan, vec![Handoff::TrySend, Handoff::Send]);
    let mut stats = Stats::new("d", "", "");
    note_handoff(&mut stats, plan[0], false);
    note_handoff(&mut stats, plan[0], true);
    note_handoff(&mut stats, plan[1], false);
    assert_eq!(stats.dropped_overflow, 1);
    assert_eq!(stats.dropped_messages, 1);
}

#[test]
fn oversize_datagram_is_counted_and_refused() {
    let mut stats = Stats::new("source", "", "");
    assert!(accept_datagram(&mut stats, 100, 100));
    assert!(!accept_datagram(&mut stats, 101, 100));
    assert_eq!(stats.bytes_received, 100);
    assert_eq!(stats.dropped_oversize, 1);
    assert_eq!(stats.dropped_messages, 1);
}

// ── Health listener addresses ──────────────────────────────────────

#[test]
fn resolve_health_bind_addrs_default_is_dual_stack() {
    let addrs = resolve_health_bind_addrs(9090, ConfiguredBind::Unset);
    assert_eq!(addrs.len(), 2);
    assert!(addrs.iter().any(|a| matches!(a.ip, IpValue::V4(_)) && a.port == 9090));
    assert!(addrs.iter().any(|a| matches!(a.ip, IpValue::V6(_)) && a.port == 9090));
}

#[test]
fn resolve_health_bind_addrs_explicit_v4_only() {
    let addrs = resolve_health_bind_addrs(9090, ConfiguredBind::Parsed(IpValue::V4(0x7f00_0001)));
    assert_eq!(addrs.len(), 1);
    assert!(matches!(addrs[0].ip, IpValue::V4(_)));
    assert_eq!(addrs[0].port, 9090);
}

#[test]
fn resolve_health_bind_addrs_explicit_v6_only() {
    let addrs = resolve_health_bind_addrs(9090, ConfiguredBind::Parsed(IpValue::V6(1)));
    assert_eq!(addrs.len(), 1);
    assert!(matches!(addrs[0].ip, IpValue::V6(_)));
    assert_eq!(addrs[0].port, 9090);
}

#[test]
fn resolve_health_bind_addrs_invalid_falls_back_to_dual_stack() {
    let addrs = resolve_health_bind_addrs(9090, ConfiguredBind::Unparsable);
    assert_eq!(addrs.len(), 2);
    assert_eq!(
        addrs,
        vec![
            BindTarget { ip: IpValue::V4(0), port: 9090 },
            BindTarget { ip: IpValue::V6(0), port: 9090 },
        ]
    );
}

#[test]
fn writes_are_counted_by_outcome() {
    let mut stats = Stats::new("d", "", "");
    nexthop::relay::record_write(&mut stats, Some(10), true);
    nexthop::relay::record_write(&mut stats, Some(5), false);
    nexthop::relay::record_write(&mut stats, None, true);
    assert_eq!(stats.bytes_sent, 15);
    assert_eq!(stats.messages_relayed, 1);
    assert_eq!(stats.errors, 1);
    assert_eq!(stats.dropped_write_error, 1);
    assert_eq!(stats.dropped_messages, 1);
}

#[test]
fn send_to_all_block_delivers_when_space_available() {
    let mut runtime = DestRuntime::new(OverflowPolicy::DropNewest, 2000, None);
    runtime.set_policy(OverflowPolicy::Block);
    assert_eq!(handoff_plan(&[runtime]), vec![Handoff::Send]);
    let mut stats = Stats::new("d", "", "");
    note_handoff(&mut stats, Handoff::Send, true);
    assert_eq!(stats.dropped_messages, 0);
}

#[test]
fn policy_read_back_is_the_last_one_set() {
    let mut runtime = DestRuntime::new(OverflowPolicy::Block, 2000, None);
    runtime.set_reconnect_delay_ms(5);
    assert_eq!(runtime.policy(), OverflowPolicy::Block);
    runtime.set_policy(OverflowPolicy::DropNewest);
    runtime.set_private_limiter(Some(&rl_cfg(1, 1)));
    runtime.set_policy(OverflowPolicy::Block);
    runtime.set_private_limiter(None);
    assert_eq!(runtime.policy(), OverflowPolicy::Block);
}

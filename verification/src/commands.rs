//! What the desktop front end's commands compute: the configuration shown
//! before one was saved, the statistics payload, and the address choices
//! offered in the editor.
use vstd::prelude::*;
use crate::config::{
    CastMode, DestConfig, EndpointConfig, EndpointMode, GeneralConfig, OverflowPolicy, Protocol,
    RelayConfig,
};
use crate::stats::StatsSnapshot;

verus! {

/// The configuration offered when no configuration file exists yet: a UDP
/// server on `0.0.0.0:5000` forwarding to a UDP client on
/// `127.0.0.1:5001`, with default general settings.
pub fn default_config() -> (r: RelayConfig)
    ensures
        r.general.log_level@ == "info"@,
        r.general.stats_interval_secs == 30,
        r.general.channel_capacity == 1024,
        r.general.max_payload_size == 65535,
        r.general.health_port is None,
        r.general.health_bind_addr is None,
        r.source.name is None,
        r.source.protocol == Protocol::Udp,
        r.source.mode == EndpointMode::Server,
        r.source.address@ == "0.0.0.0:5000"@,
        r.source.cast_mode == CastMode::Unicast,
        r.source.multicast_interface is None,
        r.source.multicast_interface_index is None,
        r.source.multicast_ttl == 16,
        r.source.reconnect_delay_ms is None,
        r.rate_limit is None,
        r.destinations@.len() == 1,
        r.destinations@[0].base.name is None,
        r.destinations@[0].base.protocol == Protocol::Udp,
        r.destinations@[0].base.mode == EndpointMode::Client,
        r.destinations@[0].base.address@ == "127.0.0.1:5001"@,
        r.destinations@[0].base.cast_mode == CastMode::Unicast,
        r.destinations@[0].base.multicast_interface is None,
        r.destinations@[0].base.multicast_interface_index is None,
        r.destinations@[0].base.multicast_ttl == 16,
        r.destinations@[0].base.reconnect_delay_ms is None,
        r.destinations@[0].overflow_policy == OverflowPolicy::DropNewest,
        r.destinations@[0].rate_limit is None,
        r.destinations@[0].transforms@.len() == 0,
{
    let dest = DestConfig {
        base: EndpointConfig {
            name: None,
            protocol: Protocol::Udp,
            mode: EndpointMode::Client,
            address: String::from_str("127.0.0.1:5001"),
            cast_mode: CastMode::Unicast,
            multicast_interface: None,
            multicast_interface_index: None,
            multicast_ttl: 16,
            reconnect_delay_ms: None,
        },
        overflow_policy: OverflowPolicy::DropNewest,
        rate_limit: None,
        transforms: Vec::new(),
    };
    let mut destinations: Vec<DestConfig> = Vec::new();
    destinations.push(dest);
    RelayConfig {
        general: GeneralConfig {
            log_level: String::from_str("info"),
            stats_interval_secs: 30,
            channel_capacity: 1024,
            max_payload_size: 65535,
            health_port: None,
            health_bind_addr: None,
        },
        source: EndpointConfig {
            name: None,
            protocol: Protocol::Udp,
            mode: EndpointMode::Server,
            address: String::from_str("0.0.0.0:5000"),
            cast_mode: CastMode::Unicast,
            multicast_interface: None,
            multicast_interface_index: None,
            multicast_ttl: 16,
            reconnect_delay_ms: None,
        },
        rate_limit: None,
        destinations,
    }
}

/// Statistics shown by the front end: the source, then each destination.
#[derive(Debug, Clone, PartialEq)]
pub struct StatsPayload {
    pub source: StatsSnapshot,
    pub destinations: Vec<StatsSnapshot>,
}

/// Splits the live snapshots (source first, then destinations in config
/// order) into the payload; `None` while the list is still empty because
/// the relay is starting up.
pub fn stats_payload(snapshots: Vec<StatsSnapshot>) -> (r: Option<StatsPayload>)
    ensures
        snapshots@.len() == 0 ==> r is None,
        snapshots@.len() > 0 ==> r is Some && r.unwrap().source == snapshots@[0]
            && r.unwrap().destinations@ == snapshots@.drop_first(),
{
    if snapshots.len() == 0 {
        return None;
    }
    let mut rest = snapshots;
    let source = rest.remove(0);
    assert(rest@ =~= snapshots@.drop_first());
    Some(StatsPayload { source, destinations: rest })
}

pub open spec fn strings_view(v: Seq<String>) -> Seq<Seq<char>> {
    v.map_values(|s: String| s@)
}

/// `base` followed by the entries of `extra` not seen before, in order.
pub open spec fn append_new(base: Seq<Seq<char>>, extra: Seq<Seq<char>>) -> Seq<Seq<char>>
    decreases extra.len(),
{
    if extra.len() == 0 {
        base
    } else {
        let b = append_new(base, extra.drop_last());
        if b.contains(extra.last()) {
            b
        } else {
            b.push(extra.last())
        }
    }
}

fn contains_string(v: &Vec<String>, s: &String) -> (r: bool)
    ensures
        r == strings_view(v@).contains(s@),
{
    let mut i: usize = 0;
    while i < v.len()
        invariant
            i <= v@.len(),
            forall|j: int| 0 <= j < i ==> v@[j]@ != s@,
        decreases v@.len() - i,
    {
        if v[i] == *s {
            assert(strings_view(v@)[i as int] == s@);
            return true;
        }
        i = i + 1;
    }
    proof {
        if strings_view(v@).contains(s@) {
            let j = choose|j: int|
                0 <= j < strings_view(v@).len() && strings_view(v@)[j] == s@;
            assert(v@[j]@ == s@);
        }
    }
    false
}

fn push_new(base: Vec<String>, extra: &[String]) -> (r: Vec<String>)
    ensures
        strings_view(r@) == append_new(strings_view(base@), strings_view(extra@)),
{
    let mut out = base;
    let ghost b = strings_view(base@);
    let mut i: usize = 0;
    while i < extra.len()
        invariant
            i <= extra@.len(),
            b == strings_view(base@),
            strings_view(out@) == append_new(b, strings_view(extra@.take(i as int))),
        decreases extra@.len() - i,
    {
        let ghost pre = strings_view(extra@.take(i as int));
        let ghost cur = strings_view(extra@.take(i + 1));
        assert(cur.drop_last() =~= pre);
        assert(cur.last() == extra@[i as int]@);
        if !contains_string(&out, &extra[i]) {
            let ghost before = out@;
            out.push(extra[i].clone());
            assert(strings_view(out@) =~= strings_view(before).push(extra@[i as int]@));
        }
        i = i + 1;
    }
    assert(extra@.take(extra@.len() as int) =~= extra@);
    out
}

/// The addresses offered for binding: the wildcard and loopback addresses
/// of both families, then each interface address not already listed.
pub fn local_ip_choices(interface_ips: &[String]) -> (r: Vec<String>)
    ensures
        strings_view(r@) == append_new(
            seq!["0.0.0.0"@, "127.0.0.1"@, "::"@, "::1"@],
            strings_view(interface_ips@),
        ),
{
    let mut base: Vec<String> = Vec::new();
    base.push(String::from_str("0.0.0.0"));
    base.push(String::from_str("127.0.0.1"));
    base.push(String::from_str("::"));
    base.push(String::from_str("::1"));
    assert(strings_view(base@) =~= seq!["0.0.0.0"@, "127.0.0.1"@, "::"@, "::1"@]);
    push_new(base, interface_ips)
}

/// The broadcast addresses offered: the limited broadcast address, then
/// each interface's broadcast address not already listed.
pub fn broadcast_ip_choices(interface_broadcasts: &[String]) -> (r: Vec<String>)
    ensures
        strings_view(r@) == append_new(seq!["255.255.255.255"@], strings_view(interface_broadcasts@)),
{
    let mut base: Vec<String> = Vec::new();
    base.push(String::from_str("255.255.255.255"));
    assert(strings_view(base@) =~= seq!["255.255.255.255"@]);
    push_new(base, interface_broadcasts)
}

} // verus!

//! Writing a configuration back out as TOML. The text is built by hand,
//! key by key, so that destinations (an array of tables whose entries share
//! their fields with the source) come out in a form the config loader reads
//! back. Keys whose value is the default are left out where the loader
//! fills the same default back in.
use vstd::prelude::*;
use crate::config::{
    CastMode, DestConfig, EndpointConfig, EndpointMode, GeneralConfig, OverflowPolicy, Protocol,
    RateLimitConfig, RelayConfig, TransformConfig,
};
use crate::text::{
    lemma_append_step, lemma_occurs_halves, lemma_occurs_in_back, lemma_occurs_in_front,
    lemma_occurs_trans, append_quoted, decimal, decimal_string, occurs_in, toml_quoted, Quoting,
};

verus! {

/// `key = value` on a line of its own.
pub open spec fn kv(key: Seq<char>, value: Seq<char>) -> Seq<char> {
    key + " = "@ + value + "\n"@
}

pub open spec fn protocol_word(p: Protocol) -> Seq<char> {
    match p {
        Protocol::Tcp => "tcp"@,
        Protocol::Udp => "udp"@,
    }
}

pub open spec fn mode_word(m: EndpointMode) -> Seq<char> {
    match m {
        EndpointMode::Server => "server"@,
        EndpointMode::Client => "client"@,
    }
}

pub open spec fn cast_word(c: CastMode) -> Seq<char> {
    match c {
        CastMode::Unicast => "unicast"@,
        CastMode::Broadcast => "broadcast"@,
        CastMode::Multicast => "multicast"@,
    }
}

pub open spec fn name_kv(e: EndpointConfig) -> Seq<char> {
    if e.name is Some {
        kv("name"@, toml_quoted(e.name.unwrap()@))
    } else {
        Seq::empty()
    }
}

pub open spec fn cast_kv(e: EndpointConfig) -> Seq<char> {
    if e.cast_mode != CastMode::Unicast {
        kv("cast_mode"@, toml_quoted(cast_word(e.cast_mode)))
    } else {
        Seq::empty()
    }
}

pub open spec fn interface_kv(e: EndpointConfig) -> Seq<char> {
    if e.multicast_interface is Some {
        kv("multicast_interface"@, toml_quoted(e.multicast_interface.unwrap()@))
    } else {
        Seq::empty()
    }
}

pub open spec fn interface_index_kv(e: EndpointConfig) -> Seq<char> {
    if e.multicast_interface_index is Some {
        kv("multicast_interface_index"@, decimal(e.multicast_interface_index.unwrap() as nat))
    } else {
        Seq::empty()
    }
}

pub open spec fn ttl_kv(e: EndpointConfig) -> Seq<char> {
    if e.multicast_ttl != 16 {
        kv("multicast_ttl"@, decimal(e.multicast_ttl as nat))
    } else {
        Seq::empty()
    }
}

pub open spec fn reconnect_kv(e: EndpointConfig) -> Seq<char> {
    if e.reconnect_delay_ms is Some {
        kv("reconnect_delay_ms"@, decimal(e.reconnect_delay_ms.unwrap() as nat))
    } else {
        Seq::empty()
    }
}

/// The keys shared by the source and the destinations. `cast_mode` is
/// written only when it is not unicast and `multicast_ttl` only when it is
/// not the default 16; optional keys only when present.
pub open spec fn endpoint_text(e: EndpointConfig) -> Seq<char> {
    name_kv(e) + kv("protocol"@, toml_quoted(protocol_word(e.protocol))) + kv(
        "mode"@,
        toml_quoted(mode_word(e.mode)),
    ) + kv("address"@, toml_quoted(e.address@)) + cast_kv(e) + interface_kv(e)
        + interface_index_kv(e) + ttl_kv(e) + reconnect_kv(e)
}

/// One `[[destinations.transforms]]` table.
pub open spec fn transform_text(t: TransformConfig) -> Seq<char> {
    "[[destinations.transforms]]\n"@ + match t {
        TransformConfig::DropSmallerThan { n_bytes } => kv(
            "type"@,
            toml_quoted("drop_smaller_than"@),
        ) + kv("n_bytes"@, decimal(n_bytes as nat)),
        TransformConfig::DropLargerThan { n_bytes } => kv(
            "type"@,
            toml_quoted("drop_larger_than"@),
        ) + kv("n_bytes"@, decimal(n_bytes as nat)),
        TransformConfig::ByteSwap16 => kv("type"@, toml_quoted("byte_swap_16"@)),
        TransformConfig::ByteSwap32 => kv("type"@, toml_quoted("byte_swap_32"@)),
    }
}

pub open spec fn transforms_text(ts: Seq<TransformConfig>) -> Seq<char>
    decreases ts.len(),
{
    if ts.len() == 0 {
        Seq::empty()
    } else {
        transforms_text(ts.drop_last()) + transform_text(ts.last())
    }
}

pub open spec fn overflow_kv(d: DestConfig) -> Seq<char> {
    if d.overflow_policy != OverflowPolicy::DropNewest {
        kv("overflow_policy"@, toml_quoted("block"@))
    } else {
        Seq::empty()
    }
}

/// A per-destination rate limit, written as an inline table so that the
/// destination's keys stay together inside its array-of-tables entry.
pub open spec fn inline_rate_limit(rl: RateLimitConfig) -> Seq<char> {
    "{ bytes_per_second = "@ + decimal(rl.bytes_per_second as nat) + ", burst_size = "@ + decimal(
        rl.burst_size as nat,
    ) + " }"@
}

pub open spec fn dest_rate_limit_kv(d: DestConfig) -> Seq<char> {
    match d.rate_limit {
        Some(rl) => kv("rate_limit"@, inline_rate_limit(rl)),
        None => Seq::empty(),
    }
}

/// One `[[destinations]]` table: the endpoint keys, `overflow_policy` when
/// it is `block`, the per-destination rate limit as an inline table, the
/// transform tables, and a blank line.
pub open spec fn dest_text(d: DestConfig) -> Seq<char> {
    "[[destinations]]\n"@ + endpoint_text(d.base) + overflow_kv(d) + dest_rate_limit_kv(d)
        + transforms_text(d.transforms@) + "\n"@
}

pub open spec fn dests_text(ds: Seq<DestConfig>) -> Seq<char>
    decreases ds.len(),
{
    if ds.len() == 0 {
        Seq::empty()
    } else {
        dests_text(ds.drop_last()) + dest_text(ds.last())
    }
}

/// The `[general]` table.
pub open spec fn general_text(g: GeneralConfig) -> Seq<char> {
    "[general]\n"@ + kv("log_level"@, toml_quoted(g.log_level@)) + kv(
        "stats_interval_secs"@,
        decimal(g.stats_interval_secs as nat),
    ) + kv("channel_capacity"@, decimal(g.channel_capacity as nat)) + kv(
        "max_payload_size"@,
        decimal(g.max_payload_size as nat),
    ) + (if g.health_port is Some {
        kv("health_port"@, decimal(g.health_port.unwrap() as nat))
    } else {
        Seq::empty()
    }) + (if g.health_bind_addr is Some {
        kv("health_bind_addr"@, toml_quoted(g.health_bind_addr.unwrap()@))
    } else {
        Seq::empty()
    }) + "\n"@
}

/// The optional `[rate_limit]` table.
pub open spec fn rate_limit_text(rl: Option<RateLimitConfig>) -> Seq<char> {
    match rl {
        Some(r) => "[rate_limit]\n"@ + kv("bytes_per_second"@, decimal(r.bytes_per_second as nat))
            + kv("burst_size"@, decimal(r.burst_size as nat)) + "\n"@,
        None => Seq::empty(),
    }
}

/// The whole file: `[general]`, `[source]`, the optional `[rate_limit]`,
/// then one `[[destinations]]` table per destination, in order.
pub open spec fn config_text(cfg: RelayConfig) -> Seq<char> {
    general_text(cfg.general) + "[source]\n"@ + endpoint_text(cfg.source) + "\n"@
        + rate_limit_text(cfg.rate_limit) + dests_text(cfg.destinations@)
}

/// Appends `key = "value"`, the value quoted as a TOML basic string.
fn push_quoted_kv(out: &mut String, key: &str, value: &str)
    ensures
        final(out)@ == old(out)@ + kv(key@, toml_quoted(value@)),
{
    out.append(key);
    out.append(" = ");
    append_quoted(out, value, Quoting::Toml);
    out.append("\n");
}

/// Appends `key = n` with `n` in decimal.
fn push_number_kv(out: &mut String, key: &str, n: u64)
    ensures
        final(out)@ == old(out)@ + kv(key@, decimal(n as nat)),
{
    out.append(key);
    out.append(" = ");
    let d = decimal_string(n as u128);
    out.append(d.as_str());
    out.append("\n");
}

/// A TOML basic string literal holding `s`: backslash, double quote,
/// newline and carriage return are escaped.
pub fn toml_str(s: &str) -> (r: String)
    ensures
        r@ == toml_quoted(s@),
{
    let mut out = String::new();
    append_quoted(&mut out, s, Quoting::Toml);
    out
}

/// An endpoint's table holds a line for each of its settings: protocol,
/// mode and address always; the name, multicast interface name and index
/// and reconnect pause whenever they are set; the cast mode whenever it is
/// not unicast and the multicast TTL whenever it is not the default 16 (the
/// loader fills those defaults back in).
pub proof fn law_endpoint_table_has_every_setting(e: EndpointConfig)
    ensures
        e.name is Some ==> occurs_in(kv("name"@, toml_quoted(e.name->0@)), endpoint_text(e)),
        e.protocol == Protocol::Tcp ==> occurs_in(
            kv("protocol"@, toml_quoted("tcp"@)),
            endpoint_text(e),
        ),
        e.protocol == Protocol::Udp ==> occurs_in(
            kv("protocol"@, toml_quoted("udp"@)),
            endpoint_text(e),
        ),
        e.mode == EndpointMode::Server ==> occurs_in(
            kv("mode"@, toml_quoted("server"@)),
            endpoint_text(e),
        ),
        e.mode == EndpointMode::Client ==> occurs_in(
            kv("mode"@, toml_quoted("client"@)),
            endpoint_text(e),
        ),
        occurs_in(kv("address"@, toml_quoted(e.address@)), endpoint_text(e)),
        e.cast_mode == CastMode::Broadcast ==> occurs_in(
            kv("cast_mode"@, toml_quoted("broadcast"@)),
            endpoint_text(e),
        ),
        e.cast_mode == CastMode::Multicast ==> occurs_in(
            kv("cast_mode"@, toml_quoted("multicast"@)),
            endpoint_text(e),
        ),
        e.multicast_interface is Some ==> occurs_in(
            kv("multicast_interface"@, toml_quoted(e.multicast_interface->0@)),
            endpoint_text(e),
        ),
        e.multicast_interface_index is Some ==> occurs_in(
            kv("multicast_interface_index"@, decimal(e.multicast_interface_index->0 as nat)),
            endpoint_text(e),
        ),
        e.multicast_ttl != 16 ==> occurs_in(
            kv("multicast_ttl"@, decimal(e.multicast_ttl as nat)),
            endpoint_text(e),
        ),
        e.reconnect_delay_ms is Some ==> occurs_in(
            kv("reconnect_delay_ms"@, decimal(e.reconnect_delay_ms->0 as nat)),
            endpoint_text(e),
        ),
{
    let n = name_kv(e);
    let pr = kv("protocol"@, toml_quoted(protocol_word(e.protocol)));
    let mo = kv("mode"@, toml_quoted(mode_word(e.mode)));
    let ad = kv("address"@, toml_quoted(e.address@));
    let ca = cast_kv(e);
    let mi = interface_kv(e);
    let ix = interface_index_kv(e);
    let tt = ttl_kv(e);
    let rc = reconnect_kv(e);
    let t1 = n + pr;
    let t2 = t1 + mo;
    let t3 = t2 + ad;
    let t4 = t3 + ca;
    let t5 = t4 + mi;
    let t6 = t5 + ix;
    let t7 = t6 + tt;
    let t8 = t7 + rc;
    assert(endpoint_text(e) == t8);
    lemma_occurs_halves(n, pr);
    lemma_occurs_halves(t1, mo);
    lemma_occurs_halves(t2, ad);
    lemma_occurs_halves(t3, ca);
    lemma_occurs_halves(t4, mi);
    lemma_occurs_halves(t5, ix);
    lemma_occurs_halves(t6, tt);
    lemma_occurs_halves(t7, rc);
    // Each prefix is a piece of the whole text.
    lemma_occurs_trans(t6, t7, t8);
    lemma_occurs_trans(t5, t6, t8);
    lemma_occurs_trans(t4, t5, t8);
    lemma_occurs_trans(t3, t4, t8);
    lemma_occurs_trans(t2, t3, t8);
    lemma_occurs_trans(t1, t2, t8);
    // Each line is a piece of the prefix it ends.
    lemma_occurs_trans(n, t1, t8);
    lemma_occurs_trans(pr, t1, t8);
    lemma_occurs_trans(mo, t2, t8);
    lemma_occurs_trans(ad, t3, t8);
    lemma_occurs_trans(ca, t4, t8);
    lemma_occurs_trans(mi, t5, t8);
    lemma_occurs_trans(ix, t6, t8);
    lemma_occurs_trans(tt, t7, t8);
}

/// The `[general]` table holds a line for each general setting: the log
/// level, stats interval, channel capacity and payload limit always, the
/// health port and bind address whenever they are set.
pub proof fn law_general_table_has_every_setting(g: GeneralConfig)
    ensures
        occurs_in(kv("log_level"@, toml_quoted(g.log_level@)), general_text(g)),
        occurs_in(
            kv("stats_interval_secs"@, decimal(g.stats_interval_secs as nat)),
            general_text(g),
        ),
        occurs_in(kv("channel_capacity"@, decimal(g.channel_capacity as nat)), general_text(g)),
        occurs_in(kv("max_payload_size"@, decimal(g.max_payload_size as nat)), general_text(g)),
        g.health_port is Some ==> occurs_in(
            kv("health_port"@, decimal(g.health_port->0 as nat)),
            general_text(g),
        ),
        g.health_bind_addr is Some ==> occurs_in(
            kv("health_bind_addr"@, toml_quoted(g.health_bind_addr->0@)),
            general_text(g),
        ),
{
    let h = "[general]\n"@;
    let ll = kv("log_level"@, toml_quoted(g.log_level@));
    let si = kv("stats_interval_secs"@, decimal(g.stats_interval_secs as nat));
    let cc = kv("channel_capacity"@, decimal(g.channel_capacity as nat));
    let mp = kv("max_payload_size"@, decimal(g.max_payload_size as nat));
    let hp = if g.health_port is Some {
        kv("health_port"@, decimal(g.health_port.unwrap() as nat))
    } else {
        Seq::empty()
    };
    let hb = if g.health_bind_addr is Some {
        kv("health_bind_addr"@, toml_quoted(g.health_bind_addr.unwrap()@))
    } else {
        Seq::empty()
    };
    let t1 = h + ll;
    let t2 = t1 + si;
    let t3 = t2 + cc;
    let t4 = t3 + mp;
    let t5 = t4 + hp;
    let t6 = t5 + hb;
    let t7 = t6 + "\n"@;
    assert(general_text(g) == t7);
    lemma_occurs_halves(h, ll);
    lemma_occurs_halves(t1, si);
    lemma_occurs_halves(t2, cc);
    lemma_occurs_halves(t3, mp);
    lemma_occurs_halves(t4, hp);
    lemma_occurs_halves(t5, hb);
    lemma_occurs_halves(t6, "\n"@);
    lemma_occurs_trans(t5, t6, t7);
    lemma_occurs_trans(t4, t5, t7);
    lemma_occurs_trans(t3, t4, t7);
    lemma_occurs_trans(t2, t3, t7);
    lemma_occurs_trans(t1, t2, t7);
    lemma_occurs_trans(ll, t1, t7);
    lemma_occurs_trans(si, t2, t7);
    lemma_occurs_trans(cc, t3, t7);
    lemma_occurs_trans(mp, t4, t7);
    lemma_occurs_trans(hp, t5, t7);
    lemma_occurs_trans(hb, t6, t7);
}

/// Every destination's table appears among the destination tables.
pub proof fn lemma_dests_hold_each(ds: Seq<DestConfig>, i: int)
    requires
        0 <= i < ds.len(),
    ensures
        occurs_in(dest_text(ds[i]), dests_text(ds)),
    decreases ds.len(),
{
    let front = dests_text(ds.drop_last());
    let last = dest_text(ds.last());
    lemma_occurs_halves(front, last);
    if i < ds.len() - 1 {
        lemma_dests_hold_each(ds.drop_last(), i);
        assert(ds.drop_last()[i] == ds[i]);
        lemma_occurs_trans(dest_text(ds[i]), front, dests_text(ds));
    }
}

/// The saved text holds the `[general]` table, the source's table, the
/// global rate limit's table when there is one, and a table for every
/// destination, each with the destination's own settings: its endpoint keys
/// right after the table header, `overflow_policy = "block"` when it
/// blocks, and its own rate limit when it has one.
pub proof fn law_saved_text_holds_every_table(cfg: RelayConfig)
    ensures
        occurs_in(general_text(cfg.general), config_text(cfg)),
        occurs_in("[source]\n"@ + endpoint_text(cfg.source), config_text(cfg)),
        cfg.rate_limit is Some ==> occurs_in(
            "[rate_limit]\n"@ + kv(
                "bytes_per_second"@,
                decimal(cfg.rate_limit->0.bytes_per_second as nat),
            ) + kv("burst_size"@, decimal(cfg.rate_limit->0.burst_size as nat)),
            config_text(cfg),
        ),
        forall|i: int|
            0 <= i < cfg.destinations@.len() ==> occurs_in(
                "[[destinations]]\n"@ + endpoint_text(#[trigger] cfg.destinations@[i].base),
                config_text(cfg),
            ),
        forall|i: int|
            0 <= i < cfg.destinations@.len() && cfg.destinations@[i].overflow_policy
                == OverflowPolicy::Block ==> occurs_in(
                kv("overflow_policy"@, toml_quoted("block"@)),
                #[trigger] dest_text(cfg.destinations@[i]),
            ),
        forall|i: int|
            0 <= i < cfg.destinations@.len() && cfg.destinations@[i].rate_limit is Some
                ==> occurs_in(
                kv(
                    "rate_limit"@,
                    "{ bytes_per_second = "@ + decimal(
                        cfg.destinations@[i].rate_limit->0.bytes_per_second as nat,
                    ) + ", burst_size = "@ + decimal(
                        cfg.destinations@[i].rate_limit->0.burst_size as nat,
                    ) + " }"@,
                ),
                #[trigger] dest_text(cfg.destinations@[i]),
            ),
        forall|i: int|
            0 <= i < cfg.destinations@.len() ==> occurs_in(
                #[trigger] dest_text(cfg.destinations@[i]),
                config_text(cfg),
            ),
{
    let g = general_text(cfg.general);
    let se = endpoint_text(cfg.source);
    let src = "[source]\n"@ + se;
    let rl = rate_limit_text(cfg.rate_limit);
    let ds = dests_text(cfg.destinations@);
    let nl = "\n"@;
    let c1 = g + "[source]\n"@;
    let c2 = c1 + se;
    let c3 = c2 + nl;
    let c4 = c3 + rl;
    let c5 = c4 + ds;
    assert(config_text(cfg) == c5);
    assert(c2 =~= g + src);
    lemma_occurs_halves(g, src);
    lemma_occurs_halves(c2, nl);
    lemma_occurs_halves(c3, rl);
    lemma_occurs_halves(c4, ds);
    lemma_occurs_trans(c3, c4, c5);
    lemma_occurs_trans(c2, c3, c5);
    lemma_occurs_trans(src, c2, c5);
    lemma_occurs_halves(g, "[source]\n"@);
    lemma_occurs_halves(c1, se);
    lemma_occurs_trans(c1, c2, c5);
    lemma_occurs_trans(g, c1, c5);
    lemma_occurs_trans(rl, c4, c5);
    if cfg.rate_limit is Some {
        let r = cfg.rate_limit->0;
        let body = "[rate_limit]\n"@ + kv("bytes_per_second"@, decimal(r.bytes_per_second as nat))
            + kv("burst_size"@, decimal(r.burst_size as nat));
        assert(rl == body + nl);
        lemma_occurs_halves(body, nl);
        lemma_occurs_trans(body, rl, c5);
    }
    assert forall|i: int| 0 <= i < cfg.destinations@.len() implies occurs_in(
        #[trigger] dest_text(cfg.destinations@[i]),
        config_text(cfg),
    ) by {
        lemma_dests_hold_each(cfg.destinations@, i);
        lemma_occurs_trans(dest_text(cfg.destinations@[i]), ds, c5);
    }
    assert forall|i: int| 0 <= i < cfg.destinations@.len() implies occurs_in(
        "[[destinations]]\n"@ + endpoint_text(#[trigger] cfg.destinations@[i].base),
        config_text(cfg),
    ) by {
        let d = cfg.destinations@[i];
        let d1 = "[[destinations]]\n"@ + endpoint_text(d.base);
        let d2 = d1 + overflow_kv(d);
        let d3 = d2 + dest_rate_limit_kv(d);
        let d4 = d3 + transforms_text(d.transforms@);
        let d5 = d4 + nl;
        assert(dest_text(d) == d5);
        lemma_occurs_halves(d1, overflow_kv(d));
        lemma_occurs_halves(d2, dest_rate_limit_kv(d));
        lemma_occurs_halves(d3, transforms_text(d.transforms@));
        lemma_occurs_halves(d4, nl);
        lemma_occurs_trans(d3, d4, d5);
        lemma_occurs_trans(d2, d3, d5);
        lemma_occurs_trans(d1, d2, d5);
        lemma_dests_hold_each(cfg.destinations@, i);
        lemma_occurs_trans(d5, ds, c5);
        lemma_occurs_trans(d1, d5, c5);
    }
    assert forall|i: int|
        0 <= i < cfg.destinations@.len() && cfg.destinations@[i].overflow_policy
            == OverflowPolicy::Block implies occurs_in(
        kv("overflow_policy"@, toml_quoted("block"@)),
        #[trigger] dest_text(cfg.destinations@[i]),
    ) by {
        let d = cfg.destinations@[i];
        let d1 = "[[destinations]]\n"@ + endpoint_text(d.base);
        let d2 = d1 + overflow_kv(d);
        let d3 = d2 + dest_rate_limit_kv(d);
        let d4 = d3 + transforms_text(d.transforms@);
        let d5 = d4 + nl;
        assert(dest_text(d) == d5);
        lemma_occurs_halves(d1, overflow_kv(d));
        lemma_occurs_halves(d2, dest_rate_limit_kv(d));
        lemma_occurs_halves(d3, transforms_text(d.transforms@));
        lemma_occurs_halves(d4, nl);
        lemma_occurs_trans(d3, d4, d5);
        lemma_occurs_trans(d2, d3, d5);
        lemma_occurs_trans(overflow_kv(d), d2, d5);
    }
    assert forall|i: int|
        0 <= i < cfg.destinations@.len() && cfg.destinations@[i].rate_limit is Some implies occurs_in(
        kv(
            "rate_limit"@,
            "{ bytes_per_second = "@ + decimal(
                cfg.destinations@[i].rate_limit->0.bytes_per_second as nat,
            ) + ", burst_size = "@ + decimal(cfg.destinations@[i].rate_limit->0.burst_size as nat)
                + " }"@,
        ),
        #[trigger] dest_text(cfg.destinations@[i]),
    ) by {
        let d = cfg.destinations@[i];
        let d1 = "[[destinations]]\n"@ + endpoint_text(d.base);
        let d2 = d1 + overflow_kv(d);
        let d3 = d2 + dest_rate_limit_kv(d);
        let d4 = d3 + transforms_text(d.transforms@);
        let d5 = d4 + nl;
        assert(dest_text(d) == d5);
        lemma_occurs_halves(d2, dest_rate_limit_kv(d));
        lemma_occurs_halves(d3, transforms_text(d.transforms@));
        lemma_occurs_halves(d4, nl);
        lemma_occurs_trans(d3, d4, d5);
        lemma_occurs_trans(dest_rate_limit_kv(d), d3, d5);
    }
}

/// Saving keeps every endpoint's multicast interface index: whenever the
/// source or a destination has one, the saved text holds the line
/// `multicast_interface_index = <index>` inside that endpoint's table.
pub proof fn law_saved_text_keeps_interface_index(cfg: RelayConfig)
    ensures
        cfg.source.multicast_interface_index is Some ==> occurs_in(
            kv(
                "multicast_interface_index"@,
                decimal(cfg.source.multicast_interface_index->0 as nat),
            ),
            "[source]\n"@ + endpoint_text(cfg.source),
        ),
        forall|i: int|
            0 <= i < cfg.destinations@.len()
                && cfg.destinations@[i].base.multicast_interface_index is Some ==> occurs_in(
                kv(
                    "multicast_interface_index"@,
                    decimal(cfg.destinations@[i].base.multicast_interface_index->0 as nat),
                ),
                "[[destinations]]\n"@ + endpoint_text(#[trigger] cfg.destinations@[i].base),
            ),
{
    law_endpoint_table_has_every_setting(cfg.source);
    lemma_occurs_halves("[source]\n"@, endpoint_text(cfg.source));
    if cfg.source.multicast_interface_index is Some {
        lemma_occurs_trans(
            kv("multicast_interface_index"@, decimal(cfg.source.multicast_interface_index->0 as nat)),
            endpoint_text(cfg.source),
            "[source]\n"@ + endpoint_text(cfg.source),
        );
    }
    assert forall|i: int|
        0 <= i < cfg.destinations@.len()
            && cfg.destinations@[i].base.multicast_interface_index is Some implies occurs_in(
        kv(
            "multicast_interface_index"@,
            decimal(cfg.destinations@[i].base.multicast_interface_index->0 as nat),
        ),
        "[[destinations]]\n"@ + endpoint_text(#[trigger] cfg.destinations@[i].base),
    ) by {
        let b = cfg.destinations@[i].base;
        law_endpoint_table_has_every_setting(b);
        lemma_occurs_halves("[[destinations]]\n"@, endpoint_text(b));
        lemma_occurs_trans(
            kv("multicast_interface_index"@, decimal(b.multicast_interface_index->0 as nat)),
            endpoint_text(b),
            "[[destinations]]\n"@ + endpoint_text(b),
        );
    }
}

/// Writes the keys shared by the source and destinations.
pub fn write_endpoint_fields(out: &mut String, e: &EndpointConfig)
    ensures
        final(out)@ == old(out)@ + endpoint_text(*e),
{
    let ghost start = out@;
    if let Some(name) = &e.name {
        push_quoted_kv(out, "name", name.as_str());
    }
    let ghost p1 = name_kv(*e);
    assert(out@ == start + p1);
    let proto = match e.protocol {
        Protocol::Tcp => "tcp",
        Protocol::Udp => "udp",
    };
    push_quoted_kv(out, "protocol", proto);
    let ghost p2 = p1 + kv("protocol"@, toml_quoted(protocol_word(e.protocol)));
    proof { lemma_append_step(start, p1, kv("protocol"@, toml_quoted(protocol_word(e.protocol)))); }
    assert(out@ == start + p2);
    let mode = match e.mode {
        EndpointMode::Server => "server",
        EndpointMode::Client => "client",
    };
    push_quoted_kv(out, "mode", mode);
    let ghost p3 = p2 + kv("mode"@, toml_quoted(mode_word(e.mode)));
    proof { lemma_append_step(start, p2, kv("mode"@, toml_quoted(mode_word(e.mode)))); }
    assert(out@ == start + p3);
    push_quoted_kv(out, "address", e.address.as_str());
    let ghost p4 = p3 + kv("address"@, toml_quoted(e.address@));
    proof { lemma_append_step(start, p3, kv("address"@, toml_quoted(e.address@))); }
    assert(out@ == start + p4);
    if e.cast_mode != CastMode::Unicast {
        let cast = match e.cast_mode {
            CastMode::Unicast => "unicast",
            CastMode::Broadcast => "broadcast",
            CastMode::Multicast => "multicast",
        };
        push_quoted_kv(out, "cast_mode", cast);
    }
    let ghost p5 = p4 + cast_kv(*e);
    proof { lemma_append_step(start, p4, cast_kv(*e)); }
    assert(out@ == start + p5);
    if let Some(iface) = &e.multicast_interface {
        push_quoted_kv(out, "multicast_interface", iface.as_str());
    }
    let ghost p6 = p5 + interface_kv(*e);
    proof { lemma_append_step(start, p5, interface_kv(*e)); }
    assert(out@ == start + p6);
    if let Some(idx) = e.multicast_interface_index {
        push_number_kv(out, "multicast_interface_index", idx as u64);
    }
    let ghost p7 = p6 + interface_index_kv(*e);
    proof { lemma_append_step(start, p6, interface_index_kv(*e)); }
    assert(out@ == start + p7);
    if e.multicast_ttl != 16 {
        push_number_kv(out, "multicast_ttl", e.multicast_ttl as u64);
    }
    let ghost p8 = p7 + ttl_kv(*e);
    proof { lemma_append_step(start, p7, ttl_kv(*e)); }
    assert(out@ == start + p8);
    if let Some(ms) = e.reconnect_delay_ms {
        push_number_kv(out, "reconnect_delay_ms", ms);
    }
    proof { lemma_append_step(start, p8, reconnect_kv(*e)); }
    assert(out@ == start + (p8 + reconnect_kv(*e)));
}

fn write_transform(out: &mut String, t: &TransformConfig)
    ensures
        final(out)@ == old(out)@ + transform_text(*t),
{
    let ghost start = out@;
    out.append("[[destinations.transforms]]\n");
    match t {
        TransformConfig::DropSmallerThan { n_bytes } => {
            push_quoted_kv(out, "type", "drop_smaller_than");
            push_number_kv(out, "n_bytes", *n_bytes as u64);
        },
        TransformConfig::DropLargerThan { n_bytes } => {
            push_quoted_kv(out, "type", "drop_larger_than");
            push_number_kv(out, "n_bytes", *n_bytes as u64);
        },
        TransformConfig::ByteSwap16 => {
            push_quoted_kv(out, "type", "byte_swap_16");
        },
        TransformConfig::ByteSwap32 => {
            push_quoted_kv(out, "type", "byte_swap_32");
        },
    }
    assert(out@ =~= start + transform_text(*t));
}

fn push_inline_rate_limit(out: &mut String, rl: &RateLimitConfig)
    ensures
        final(out)@ == old(out)@ + kv("rate_limit"@, inline_rate_limit(*rl)),
{
    let ghost start = out@;
    out.append("rate_limit");
    out.append(" = ");
    out.append("{ bytes_per_second = ");
    let a = decimal_string(rl.bytes_per_second as u128);
    out.append(a.as_str());
    out.append(", burst_size = ");
    let b = decimal_string(rl.burst_size as u128);
    out.append(b.as_str());
    out.append(" }");
    out.append("\n");
    assert(out@ =~= start + kv("rate_limit"@, inline_rate_limit(*rl)));
}

fn write_dest(out: &mut String, d: &DestConfig)
    ensures
        final(out)@ == old(out)@ + dest_text(*d),
{
    let ghost start = out@;
    out.append("[[destinations]]\n");
    write_endpoint_fields(out, &d.base);
    let ghost p1 = "[[destinations]]\n"@ + endpoint_text(d.base);
    proof { lemma_append_step(start, "[[destinations]]\n"@, endpoint_text(d.base)); }
    if d.overflow_policy != OverflowPolicy::DropNewest {
        push_quoted_kv(out, "overflow_policy", "block");
    }
    let ghost p2 = p1 + overflow_kv(*d);
    proof { lemma_append_step(start, p1, overflow_kv(*d)); }
    assert(out@ == start + p2);
    if let Some(rl) = &d.rate_limit {
        push_inline_rate_limit(out, rl);
    }
    let ghost p3 = p2 + dest_rate_limit_kv(*d);
    proof { lemma_append_step(start, p2, dest_rate_limit_kv(*d)); }
    assert(out@ == start + p3);
    let ghost a3 = out@;
    let n = d.transforms.len();
    let mut i: usize = 0;
    while i < n
        invariant
            n == d.transforms@.len(),
            i <= n,
            out@ == a3 + transforms_text(d.transforms@.take(i as int)),
        decreases n - i,
    {
        let ghost before = out@;
        write_transform(out, &d.transforms[i]);
        proof {
            let ts = d.transforms@.take(i + 1);
            assert(ts.drop_last() =~= d.transforms@.take(i as int));
            lemma_append_step(a3, transforms_text(d.transforms@.take(i as int)), transform_text(d.transforms@[i as int]));
        }
        i = i + 1;
    }
    assert(d.transforms@.take(n as int) =~= d.transforms@);
    let ghost p4 = p3 + transforms_text(d.transforms@);
    proof { lemma_append_step(start, p3, transforms_text(d.transforms@)); }
    out.append("\n");
    proof { lemma_append_step(start, p4, "\n"@); }
}

/// Serialises a configuration to TOML text suitable for writing to disk.
pub fn to_toml_string(cfg: &RelayConfig) -> (r: String)
    ensures
        r@ == config_text(*cfg),
{
    let mut out = String::new();
    out.append("[general]\n");
    push_quoted_kv(&mut out, "log_level", cfg.general.log_level.as_str());
    push_number_kv(&mut out, "stats_interval_secs", cfg.general.stats_interval_secs);
    push_number_kv(&mut out, "channel_capacity", cfg.general.channel_capacity as u64);
    push_number_kv(&mut out, "max_payload_size", cfg.general.max_payload_size as u64);
    let ghost g1 = out@;
    if let Some(port) = cfg.general.health_port {
        push_number_kv(&mut out, "health_port", port as u64);
    }
    let ghost g2 = out@;
    if let Some(addr) = &cfg.general.health_bind_addr {
        push_quoted_kv(&mut out, "health_bind_addr", addr.as_str());
    }
    out.append("\n");
    assert(out@ =~= general_text(cfg.general));
    let ghost s0 = out@;
    out.append("[source]\n");
    write_endpoint_fields(&mut out, &cfg.source);
    out.append("\n");
    let ghost s1 = out@;
    if let Some(rl) = &cfg.rate_limit {
        out.append("[rate_limit]\n");
        push_number_kv(&mut out, "bytes_per_second", rl.bytes_per_second);
        push_number_kv(&mut out, "burst_size", rl.burst_size);
        out.append("\n");
    }
    assert(out@ =~= s1 + rate_limit_text(cfg.rate_limit));
    let ghost s2 = out@;
    let n = cfg.destinations.len();
    let mut i: usize = 0;
    while i < n
        invariant
            n == cfg.destinations@.len(),
            i <= n,
            out@ == s2 + dests_text(cfg.destinations@.take(i as int)),
        decreases n - i,
    {
        write_dest(&mut out, &cfg.destinations[i]);
        proof {
            let ds = cfg.destinations@.take(i + 1);
            assert(ds.drop_last() =~= cfg.destinations@.take(i as int));
        }
        i = i + 1;
    }
    assert(cfg.destinations@.take(n as int) =~= cfg.destinations@);
    assert(out@ =~= config_text(*cfg));
    out
}

} // verus!

//! What a configuration reload changes. The relay applies the plan: it
//! swaps the global limiter, the log filter and the stats interval, spawns,
//! drains or updates destinations in place, and warns about the settings
//! that only take effect after a restart.
use vstd::prelude::*;
use crate::config::{
    default_reconnect_delay_ms, DestConfig, EndpointConfig, OverflowPolicy, RateLimitConfig,
    RelayConfig, TransformConfig,
};
use crate::error::RelayError;
use crate::relay::{
    transforms_eq,
    diff_destinations, keys_of, keys_view, opt_string_view, DestKey, DestKeyView, diff_spec,
};

verus! {

// ── Field-wise equality of configurations ─────────────────────────

pub open spec fn endpoint_same(a: EndpointConfig, b: EndpointConfig) -> bool {
    &&& opt_string_view(a.name) == opt_string_view(b.name)
    &&& a.protocol == b.protocol
    &&& a.mode == b.mode
    &&& a.address@ == b.address@
    &&& a.cast_mode == b.cast_mode
    &&& opt_string_view(a.multicast_interface) == opt_string_view(b.multicast_interface)
    &&& a.multicast_interface_index == b.multicast_interface_index
    &&& a.multicast_ttl == b.multicast_ttl
    &&& a.reconnect_delay_ms == b.reconnect_delay_ms
}

pub open spec fn dest_same(a: DestConfig, b: DestConfig) -> bool {
    &&& endpoint_same(a.base, b.base)
    &&& a.overflow_policy == b.overflow_policy
    &&& a.rate_limit == b.rate_limit
    &&& a.transforms@ == b.transforms@
}

pub open spec fn dests_same(a: Seq<DestConfig>, b: Seq<DestConfig>) -> bool {
    &&& a.len() == b.len()
    &&& forall|i: int| 0 <= i < a.len() ==> #[trigger] dest_same(a[i], b[i])
}

fn opt_string_eq(a: &Option<String>, b: &Option<String>) -> (r: bool)
    ensures
        r == (opt_string_view(*a) == opt_string_view(*b)),
{
    match (a, b) {
        (Some(x), Some(y)) => *x == *y,
        (None, None) => true,
        _ => false,
    }
}

fn opt_u64_eq(a: Option<u64>, b: Option<u64>) -> (r: bool)
    ensures
        r == (a == b),
{
    match (a, b) {
        (Some(x), Some(y)) => x == y,
        (None, None) => true,
        _ => false,
    }
}

fn opt_u32_eq(a: Option<u32>, b: Option<u32>) -> (r: bool)
    ensures
        r == (a == b),
{
    match (a, b) {
        (Some(x), Some(y)) => x == y,
        (None, None) => true,
        _ => false,
    }
}

fn opt_u16_eq(a: Option<u16>, b: Option<u16>) -> (r: bool)
    ensures
        r == (a == b),
{
    match (a, b) {
        (Some(x), Some(y)) => x == y,
        (None, None) => true,
        _ => false,
    }
}

fn opt_rate_eq(a: Option<RateLimitConfig>, b: Option<RateLimitConfig>) -> (r: bool)
    ensures
        r == (a == b),
{
    match (a, b) {
        (Some(x), Some(y)) => x.bytes_per_second == y.bytes_per_second && x.burst_size
            == y.burst_size,
        (None, None) => true,
        _ => false,
    }
}

pub fn endpoint_eq(a: &EndpointConfig, b: &EndpointConfig) -> (r: bool)
    ensures
        r == endpoint_same(*a, *b),
{
    opt_string_eq(&a.name, &b.name) && a.protocol == b.protocol && a.mode == b.mode && a.address
        == b.address && a.cast_mode == b.cast_mode && opt_string_eq(
        &a.multicast_interface,
        &b.multicast_interface,
    ) && opt_u32_eq(a.multicast_interface_index, b.multicast_interface_index) && a.multicast_ttl
        == b.multicast_ttl && opt_u64_eq(a.reconnect_delay_ms, b.reconnect_delay_ms)
}

pub fn dest_eq(a: &DestConfig, b: &DestConfig) -> (r: bool)
    ensures
        r == dest_same(*a, *b),
{
    endpoint_eq(&a.base, &b.base) && a.overflow_policy == b.overflow_policy && opt_rate_eq(
        a.rate_limit,
        b.rate_limit,
    ) && transforms_eq(&a.transforms, &b.transforms)
}

pub fn dests_eq(a: &[DestConfig], b: &[DestConfig]) -> (r: bool)
    ensures
        r == dests_same(a@, b@),
{
    if a.len() != b.len() {
        return false;
    }
    let mut i: usize = 0;
    while i < a.len()
        invariant
            a@.len() == b@.len(),
            i <= a@.len(),
            forall|j: int| 0 <= j < i ==> #[trigger] dest_same(a@[j], b@[j]),
        decreases a@.len() - i,
    {
        if !dest_eq(&a[i], &b[i]) {
            return false;
        }
        i = i + 1;
    }
    true
}

// ── Destination reload plan ────────────────────────────────────────

/// Index of the last entry with key `k`, or -1. When a list names the
/// same destination twice, the last entry is the one that counts.
pub open spec fn last_index(ks: Seq<DestKeyView>, k: DestKeyView) -> int
    decreases ks.len(),
{
    if ks.len() == 0 {
        -1
    } else if ks.last() == k {
        ks.len() - 1
    } else {
        last_index(ks.drop_last(), k)
    }
}

pub proof fn lemma_last_index(ks: Seq<DestKeyView>, k: DestKeyView)
    ensures
        -1 <= last_index(ks, k) < ks.len(),
        ks.contains(k) ==> 0 <= last_index(ks, k) && ks[last_index(ks, k)] == k,
    decreases ks.len(),
{
    if ks.len() > 0 && ks.last() != k {
        lemma_last_index(ks.drop_last(), k);
        if ks.contains(k) {
            let j = choose|j: int| 0 <= j < ks.len() && ks[j] == k;
            assert(j < ks.len() - 1);
            assert(ks.drop_last()[j] == k);
        }
    }
}

/// An in-place change to a destination that keeps its identity.
#[derive(Debug)]
pub struct DestUpdate {
    pub key: DestKey,
    /// Index in the new list of the entry that now describes it.
    pub new_index: usize,
    /// The new overflow policy, when it changed.
    pub policy: Option<OverflowPolicy>,
    /// The new reconnect pause in milliseconds, when it changed.
    pub reconnect_delay_ms: Option<u64>,
    /// The new own rate limit (`None` inside: fall back to the global one),
    /// when it changed.
    pub rate_limit: Option<Option<RateLimitConfig>>,
}

/// How the running destinations follow a new destination list.
#[derive(Debug)]
pub struct DestReload {
    /// In-place updates, one per kept destination, in new-list order.
    pub updates: Vec<DestUpdate>,
    /// Indices in the new list of the destinations to start.
    pub spawn: Vec<usize>,
    /// Destinations to drain and stop.
    pub remove: Vec<DestKey>,
}

/// The in-place update a kept destination gets, from its old entry `o` to
/// its new entry `n`.
pub open spec fn update_ok(u: DestUpdate, o: DestConfig, n: DestConfig) -> bool {
    &&& u.policy == (if o.overflow_policy != n.overflow_policy {
        Some(n.overflow_policy)
    } else {
        None::<OverflowPolicy>
    })
    &&& u.reconnect_delay_ms == (if o.base.reconnect_delay_ms != n.base.reconnect_delay_ms {
        Some(
            match n.base.reconnect_delay_ms {
                Some(ms) => ms,
                None => default_reconnect_delay_ms(),
            },
        )
    } else {
        None::<u64>
    })
    &&& u.rate_limit == (if o.rate_limit != n.rate_limit {
        Some(n.rate_limit)
    } else {
        None::<Option<RateLimitConfig>>
    })
}

pub open spec fn dest_reload_ok(old: Seq<DestConfig>, new: Seq<DestConfig>, r: DestReload) -> bool {
    let (added, removed, kept) = diff_spec(old, new);
    &&& r.updates@.len() == kept.len()
    &&& forall|j: int|
        0 <= j < kept.len() ==> {
            let u = #[trigger] r.updates@[j];
            &&& u.key@ == kept[j]
            &&& u.new_index == last_index(keys_of(new), kept[j])
            &&& update_ok(u, old[last_index(keys_of(old), kept[j])], new[u.new_index as int])
        }
    &&& r.spawn@.len() == added.len()
    &&& forall|j: int|
        0 <= j < added.len() ==> #[trigger] r.spawn@[j] == last_index(keys_of(new), added[j])
    &&& keys_view(r.remove@) == removed
}

fn find_last(ks: &Vec<DestKey>, k: &DestKey) -> (r: usize)
    requires
        keys_view(ks@).contains(k@),
    ensures
        r == last_index(keys_view(ks@), k@),
        r < ks@.len(),
{
    proof {
        lemma_last_index(keys_view(ks@), k@);
    }
    let mut i: usize = ks.len();
    assert(keys_view(ks@).take(i as int) =~= keys_view(ks@));
    while i > 0
        invariant
            i <= ks@.len(),
            last_index(keys_view(ks@), k@) == last_index(keys_view(ks@).take(i as int), k@),
            keys_view(ks@).take(i as int).contains(k@),
        decreases i,
    {
        let ghost pre = keys_view(ks@).take(i as int);
        assert(pre.last() == ks@[i - 1]@);
        if ks[i - 1].same(k) {
            return i - 1;
        }
        assert(pre.drop_last() =~= keys_view(ks@).take(i - 1));
        proof {
            let j = choose|j: int| 0 <= j < pre.len() && pre[j] == k@;
            assert(j < i - 1);
            assert(pre.drop_last()[j] == k@);
        }
        i = i - 1;
    }
    assert(keys_view(ks@).take(0).len() == 0);
    0
}

fn keys_of_list(ds: &[DestConfig]) -> (r: Vec<DestKey>)
    ensures
        keys_view(r@) == keys_of(ds@),
{
    let mut out: Vec<DestKey> = Vec::new();
    let mut i: usize = 0;
    while i < ds.len()
        invariant
            i <= ds@.len(),
            keys_view(out@) == keys_of(ds@.take(i as int)),
        decreases ds@.len() - i,
    {
        let k = DestKey::from_cfg(&ds[i]);
        let ghost before = out@;
        out.push(k);
        assert(keys_view(out@) =~= keys_view(before).push(crate::relay::key_of(ds@[i as int])));
        assert(keys_of(ds@.take(i + 1)) =~= keys_of(ds@.take(i as int)).push(
            crate::relay::key_of(ds@[i as int]),
        ));
        i = i + 1;
    }
    assert(ds@.take(ds@.len() as int) =~= ds@);
    out
}

fn update_for(key: DestKey, new_index: usize, o: &DestConfig, n: &DestConfig) -> (u: DestUpdate)
    ensures
        u.key == key,
        u.new_index == new_index,
        update_ok(u, *o, *n),
{
    let policy = if o.overflow_policy != n.overflow_policy {
        Some(n.overflow_policy)
    } else {
        None
    };
    let reconnect_delay_ms = if !opt_u64_eq(o.base.reconnect_delay_ms, n.base.reconnect_delay_ms) {
        Some(n.base.reconnect_delay())
    } else {
        None
    };
    let rate_limit = if !opt_rate_eq(o.rate_limit, n.rate_limit) {
        Some(n.rate_limit)
    } else {
        None
    };
    DestUpdate { key, new_index, policy, reconnect_delay_ms, rate_limit }
}

/// Plans how running destinations follow the new list: kept ones are
/// updated in place from their old entry to their new one, added ones are
/// started from their new entry, removed ones are stopped.
pub fn plan_dest_reload(old: &[DestConfig], new: &[DestConfig]) -> (r: DestReload)
    ensures
        dest_reload_ok(old@, new@, r),
{
    let diff = diff_destinations(old, new);
    let old_keys = keys_of_list(old);
    let new_keys = keys_of_list(new);
    proof {
        crate::relay::law_diff_partitions_keys(old@, new@, arbitrary());
    }
    let ghost kept = diff_spec(old@, new@).2;
    let ghost added = diff_spec(old@, new@).0;
    let mut updates: Vec<DestUpdate> = Vec::new();
    let mut j: usize = 0;
    while j < diff.kept.len()
        invariant
            keys_view(diff.kept@) == kept,
            keys_view(old_keys@) == keys_of(old@),
            keys_view(new_keys@) == keys_of(new@),
            kept == diff_spec(old@, new@).2,
            j <= kept.len(),
            updates@.len() == j,
            forall|t: int|
                0 <= t < j ==> {
                    let u = #[trigger] updates@[t];
                    &&& u.key@ == kept[t]
                    &&& u.new_index == last_index(keys_of(new@), kept[t])
                    &&& update_ok(u, old@[last_index(keys_of(old@), kept[t])], new@[u.new_index as int])
                },
        decreases diff.kept@.len() - j,
    {
        let k = &diff.kept[j];
        proof {
            assert(kept[j as int] == k@);
            crate::relay::law_diff_partitions_keys(old@, new@, k@);
            assert(kept.contains(k@));
        }
        let oi = find_last(&old_keys, k);
        let ni = find_last(&new_keys, k);
        let u = update_for(k.duplicate(), ni, &old[oi], &new[ni]);
        updates.push(u);
        j = j + 1;
    }
    let mut spawn: Vec<usize> = Vec::new();
    let mut j: usize = 0;
    while j < diff.added.len()
        invariant
            keys_view(diff.added@) == added,
            keys_view(new_keys@) == keys_of(new@),
            added == diff_spec(old@, new@).0,
            j <= added.len(),
            spawn@.len() == j,
            forall|t: int| 0 <= t < j ==> #[trigger] spawn@[t] == last_index(keys_of(new@), added[t]),
        decreases diff.added@.len() - j,
    {
        let k = &diff.added[j];
        proof {
            assert(added[j as int] == k@);
            crate::relay::law_diff_partitions_keys(old@, new@, k@);
            assert(added.contains(k@));
        }
        let ni = find_last(&new_keys, k);
        spawn.push(ni);
        j = j + 1;
    }
    DestReload { updates, spawn, remove: diff.removed }
}

// ── Whole-configuration reload plan ────────────────────────────────

/// What a reload changes while the relay keeps running.
#[derive(Debug)]
pub struct HotReloadPlan {
    /// The global limit to install (`None` inside: no limit), when it
    /// changed.
    pub rate_limit: Option<Option<RateLimitConfig>>,
    /// The new log filter, when it changed.
    pub log_level: Option<String>,
    /// The new stats interval, when it changed.
    pub stats_interval_secs: Option<u64>,
    /// How destinations follow the new list, when the list changed.
    pub destinations: Option<DestReload>,
    /// The source changed; that needs a restart.
    pub source_needs_restart: bool,
    /// `channel_capacity`, `max_payload_size` or `health_port` changed;
    /// that needs a restart.
    pub general_needs_restart: bool,
}

pub open spec fn hot_reload_ok(old: RelayConfig, new: RelayConfig, p: HotReloadPlan) -> bool {
    &&& p.rate_limit == (if old.rate_limit != new.rate_limit {
        Some(new.rate_limit)
    } else {
        None::<Option<RateLimitConfig>>
    })
    &&& (if old.general.log_level@ != new.general.log_level@ {
        p.log_level is Some && p.log_level.unwrap()@ == new.general.log_level@
    } else {
        p.log_level is None
    })
    &&& p.stats_interval_secs == (if old.general.stats_interval_secs
        != new.general.stats_interval_secs {
        Some(new.general.stats_interval_secs)
    } else {
        None::<u64>
    })
    &&& (if dests_same(old.destinations@, new.destinations@) {
        p.destinations is None
    } else {
        p.destinations is Some && dest_reload_ok(
            old.destinations@,
            new.destinations@,
            p.destinations.unwrap(),
        )
    })
    &&& p.source_needs_restart == !endpoint_same(old.source, new.source)
    &&& p.general_needs_restart == (old.general.channel_capacity != new.general.channel_capacity
        || old.general.max_payload_size != new.general.max_payload_size
        || old.general.health_port != new.general.health_port)
}

/// Decides what a reload from `old` to `new` changes live and what needs a
/// restart.
pub fn plan_hot_reload(old: &RelayConfig, new: &RelayConfig) -> (p: HotReloadPlan)
    ensures
        hot_reload_ok(*old, *new, p),
        old.rate_limit != new.rate_limit ==> p.rate_limit == Some(new.rate_limit),
        old.rate_limit == new.rate_limit ==> p.rate_limit is None,
{
    let rate_limit = if !opt_rate_eq(old.rate_limit, new.rate_limit) {
        Some(new.rate_limit)
    } else {
        None
    };
    let log_level = if old.general.log_level != new.general.log_level {
        Some(new.general.log_level.clone())
    } else {
        None
    };
    let stats_interval_secs = if old.general.stats_interval_secs
        != new.general.stats_interval_secs {
        Some(new.general.stats_interval_secs)
    } else {
        None
    };
    let destinations = if !dests_eq(old.destinations.as_slice(), new.destinations.as_slice()) {
        Some(plan_dest_reload(old.destinations.as_slice(), new.destinations.as_slice()))
    } else {
        None
    };
    let source_needs_restart = !endpoint_eq(&old.source, &new.source);
    let general_needs_restart = old.general.channel_capacity != new.general.channel_capacity
        || old.general.max_payload_size != new.general.max_payload_size || !opt_u16_eq(
        old.general.health_port,
        new.general.health_port,
    );
    HotReloadPlan {
        rate_limit,
        log_level,
        stats_interval_secs,
        destinations,
        source_needs_restart,
        general_needs_restart,
    }
}

/// The watcher's step once the configuration file changed and was loaded
/// again: a configuration that loaded becomes the new baseline, and the
/// plan leads from the previous baseline to it; a failed load keeps the
/// current settings and the baseline.
pub fn follow_reload(baseline: &mut RelayConfig, loaded: Result<RelayConfig, RelayError>) -> (r:
    Option<HotReloadPlan>)
    ensures
        match loaded {
            Ok(new) => r is Some && hot_reload_ok(*old(baseline), new, r->0) && *final(baseline)
                == new,
            Err(_) => r is None && *final(baseline) == *old(baseline),
        },
{
    match loaded {
        Ok(new) => {
            let p = plan_hot_reload(baseline, &new);
            *baseline = new;
            Some(p)
        },
        Err(_) => None,
    }
}

/// A reload installs the new global limit whenever it differs from the old
/// one in any way: added, removed, or a different rate or burst. An
/// unchanged limit is left alone, so the running bucket keeps its tokens.
pub proof fn law_changed_global_limit_is_installed(
    old: RelayConfig,
    new: RelayConfig,
    p: HotReloadPlan,
)
    requires
        hot_reload_ok(old, new, p),
    ensures
        old.rate_limit != new.rate_limit ==> p.rate_limit == Some(new.rate_limit),
        old.rate_limit == new.rate_limit ==> p.rate_limit is None,
        old.rate_limit is Some && new.rate_limit is Some && (old.rate_limit->0.bytes_per_second
            != new.rate_limit->0.bytes_per_second || old.rate_limit->0.burst_size
            != new.rate_limit->0.burst_size) ==> p.rate_limit == Some(new.rate_limit),
{
}

/// Reloading an unchanged configuration changes nothing and asks for no
/// restart.
pub proof fn law_reload_of_same_config_is_quiet(cfg: RelayConfig, p: HotReloadPlan)
    requires
        hot_reload_ok(cfg, cfg, p),
    ensures
        p.rate_limit is None,
        p.log_level is None,
        p.stats_interval_secs is None,
        p.destinations is None,
        !p.source_needs_restart,
        !p.general_needs_restart,
{
}

} // verus!

//! The relay engine's decisions: which destinations a reload adds, removes
//! or keeps, what a reload changes in place, how endpoints are labelled,
//! how the health endpoint routes a request, and which overflow policy a
//! destination queue applies.
use vstd::prelude::*;
use crate::config::{
    display_name_of, CastMode, DestConfig, EndpointConfig, EndpointMode, OverflowPolicy, TransformConfig, Protocol,
    RateLimitConfig,
};
use crate::stats::{counter_add, Stats};

pub mod health;
pub mod reload;
pub mod peers;
pub mod supervisor;

verus! {

// ════════════════════════════════════════════════════════════════════
//  Destination identity
// ════════════════════════════════════════════════════════════════════

/// Stable key used to match destinations across reloads. Two entries
/// describe the same destination exactly when their keys match. It leaves
/// out the fields that can change in place (`overflow_policy`,
/// `reconnect_delay_ms`, `name`, the rate limit). The transform pipeline is
/// part of the identity: a running pipeline never changes, so a destination
/// whose transforms change is stopped and started afresh.
#[derive(Clone, Debug, Hash, PartialEq, Eq)]
pub struct DestKey {
    pub protocol: Protocol,
    pub mode: EndpointMode,
    pub address: String,
    pub cast_mode: CastMode,
    pub multicast_interface: Option<String>,
    pub multicast_interface_index: Option<u32>,
    pub transforms: Vec<TransformConfig>,
}

/// What a [`DestKey`] says, with strings as character sequences.
pub struct DestKeyView {
    pub protocol: Protocol,
    pub mode: EndpointMode,
    pub address: Seq<char>,
    pub cast_mode: CastMode,
    pub multicast_interface: Option<Seq<char>>,
    pub multicast_interface_index: Option<u32>,
    pub transforms: Seq<TransformConfig>,
}

pub open spec fn opt_string_view(o: Option<String>) -> Option<Seq<char>> {
    match o {
        Some(s) => Some(s@),
        None => None,
    }
}

impl View for DestKey {
    type V = DestKeyView;

    open spec fn view(&self) -> DestKeyView {
        DestKeyView {
            protocol: self.protocol,
            mode: self.mode,
            address: self.address@,
            cast_mode: self.cast_mode,
            multicast_interface: opt_string_view(self.multicast_interface),
            multicast_interface_index: self.multicast_interface_index,
            transforms: self.transforms@,
        }
    }
}

/// The identity of a destination.
pub open spec fn key_of(d: DestConfig) -> DestKeyView {
    DestKeyView {
        protocol: d.base.protocol,
        mode: d.base.mode,
        address: d.base.address@,
        cast_mode: d.base.cast_mode,
        multicast_interface: opt_string_view(d.base.multicast_interface),
        multicast_interface_index: d.base.multicast_interface_index,
        transforms: d.transforms@,
    }
}

/// The identities of a list of destinations, in order.
pub open spec fn keys_of(ds: Seq<DestConfig>) -> Seq<DestKeyView> {
    ds.map_values(|d: DestConfig| key_of(d))
}

fn copy_transforms(ts: &Vec<TransformConfig>) -> (r: Vec<TransformConfig>)
    ensures
        r@ == ts@,
{
    let mut out: Vec<TransformConfig> = Vec::new();
    let mut i: usize = 0;
    while i < ts.len()
        invariant
            i <= ts@.len(),
            out@ == ts@.take(i as int),
        decreases ts@.len() - i,
    {
        out.push(ts[i]);
        assert(out@ =~= ts@.take(i + 1));
        i = i + 1;
    }
    assert(ts@.take(ts@.len() as int) =~= ts@);
    out
}

pub(crate) fn transforms_eq(a: &Vec<TransformConfig>, b: &Vec<TransformConfig>) -> (r: bool)
    ensures
        r == (a@ == b@),
{
    if a.len() != b.len() {
        return false;
    }
    let mut i: usize = 0;
    while i < a.len()
        invariant
            a@.len() == b@.len(),
            i <= a@.len(),
            forall|j: int| 0 <= j < i ==> a@[j] == b@[j],
        decreases a@.len() - i,
    {
        if a[i] != b[i] {
            return false;
        }
        i = i + 1;
    }
    assert(a@ =~= b@);
    true
}

fn clone_opt_string(o: &Option<String>) -> (r: Option<String>)
    ensures
        opt_string_view(r) == opt_string_view(*o),
{
    match o {
        Some(s) => Some(s.clone()),
        None => None,
    }
}

fn opt_string_eq(a: &Option<String>, b: &Option<String>) -> (r: bool)
    ensures
        r == (opt_string_view(*a) == opt_string_view(*b)),
{
    match (a, b) {
        (Some(x), Some(y)) => *x == *y,
        (None, None) => true,
        _ => false,
    }
}

impl DestKey {
    pub fn from_cfg(cfg: &DestConfig) -> (r: DestKey)
        ensures
            r@ == key_of(*cfg),
    {
        DestKey {
            protocol: cfg.base.protocol,
            mode: cfg.base.mode,
            address: cfg.base.address.clone(),
            cast_mode: cfg.base.cast_mode,
            multicast_interface: clone_opt_string(&cfg.base.multicast_interface),
            multicast_interface_index: cfg.base.multicast_interface_index,
            transforms: copy_transforms(&cfg.transforms),
        }
    }

    /// Whether two keys name the same destination.
    pub fn same(&self, other: &DestKey) -> (r: bool)
        ensures
            r == (self@ == other@),
    {
        self.protocol == other.protocol && self.mode == other.mode && self.address
            == other.address && self.cast_mode == other.cast_mode && opt_string_eq(
            &self.multicast_interface,
            &other.multicast_interface,
        ) && self.multicast_interface_index == other.multicast_interface_index && transforms_eq(
            &self.transforms,
            &other.transforms,
        )
    }

    pub fn duplicate(&self) -> (r: DestKey)
        ensures
            r@ == self@,
    {
        DestKey {
            protocol: self.protocol,
            mode: self.mode,
            address: self.address.clone(),
            cast_mode: self.cast_mode,
            multicast_interface: clone_opt_string(&self.multicast_interface),
            multicast_interface_index: self.multicast_interface_index,
            transforms: copy_transforms(&self.transforms),
        }
    }
}

pub open spec fn keys_view(ks: Seq<DestKey>) -> Seq<DestKeyView> {
    ks.map_values(|k: DestKey| k@)
}

/// The elements of `s` that satisfy `keep`, each kept at its first
/// occurrence only, in order.
pub open spec fn distinct_filter(s: Seq<DestKeyView>, keep: spec_fn(DestKeyView) -> bool) -> Seq<
    DestKeyView,
>
    decreases s.len(),
{
    if s.len() == 0 {
        Seq::empty()
    } else {
        let d = distinct_filter(s.drop_last(), keep);
        if keep(s.last()) && !d.contains(s.last()) {
            d.push(s.last())
        } else {
            d
        }
    }
}

/// Outcome of comparing the old and the new destination lists.
#[derive(Debug, Default, PartialEq, Eq)]
pub struct DiffPlan {
    pub added: Vec<DestKey>,
    pub removed: Vec<DestKey>,
    pub kept: Vec<DestKey>,
}

/// The plan: `added` are the new keys absent from the old list, `kept`
/// the new keys present in both, `removed` the old keys absent from the new
/// list; each without repeats, in the order of first appearance.
pub open spec fn diff_spec(old: Seq<DestConfig>, new: Seq<DestConfig>) -> (
    Seq<DestKeyView>,
    Seq<DestKeyView>,
    Seq<DestKeyView>,
) {
    let ok = keys_of(old);
    let nk = keys_of(new);
    (
        distinct_filter(nk, |k: DestKeyView| !ok.contains(k)),
        distinct_filter(ok, |k: DestKeyView| !nk.contains(k)),
        distinct_filter(nk, |k: DestKeyView| ok.contains(k)),
    )
}

fn contains_key(ks: &Vec<DestKey>, k: &DestKey) -> (r: bool)
    ensures
        r == keys_view(ks@).contains(k@),
{
    let mut i: usize = 0;
    while i < ks.len()
        invariant
            i <= ks@.len(),
            forall|j: int| 0 <= j < i ==> ks@[j]@ != k@,
        decreases ks@.len() - i,
    {
        if ks[i].same(k) {
            assert(keys_view(ks@)[i as int] == k@);
            return true;
        }
        i = i + 1;
    }
    proof {
        if keys_view(ks@).contains(k@) {
            let j = choose|j: int| 0 <= j < keys_view(ks@).len() && keys_view(ks@)[j] == k@;
            assert(ks@[j]@ == k@);
        }
    }
    false
}

fn keys_of_cfgs(ds: &[DestConfig]) -> (r: Vec<DestKey>)
    ensures
        keys_view(r@) == keys_of(ds@),
{
    let mut out: Vec<DestKey> = Vec::new();
    let mut i: usize = 0;
    while i < ds.len()
        invariant
            i <= ds@.len(),
            keys_view(out@) == keys_of(ds@.take(i as int)),
        decreases ds@.len() - i,
    {
        let k = DestKey::from_cfg(&ds[i]);
        let ghost before = out@;
        out.push(k);
        assert(keys_view(out@) =~= keys_view(before).push(key_of(ds@[i as int])));
        assert(keys_of(ds@.take(i + 1)) =~= keys_of(ds@.take(i as int)).push(key_of(ds@[i as int])));
        i = i + 1;
    }
    assert(ds@.take(ds@.len() as int) =~= ds@);
    out
}

/// Collects, in order and without repeats, the keys of `from` whose
/// membership in `other` equals `want`.
fn collect_distinct(from: &Vec<DestKey>, other: &Vec<DestKey>, want: bool) -> (r: Vec<DestKey>)
    ensures
        keys_view(r@) == distinct_filter(
            keys_view(from@),
            |k: DestKeyView| keys_view(other@).contains(k) == want,
        ),
{
    let ghost keep = |k: DestKeyView| keys_view(other@).contains(k) == want;
    let mut out: Vec<DestKey> = Vec::new();
    let mut i: usize = 0;
    while i < from.len()
        invariant
            i <= from@.len(),
            keys_view(out@) == distinct_filter(
                keys_view(from@).take(i as int),
                |k: DestKeyView| keys_view(other@).contains(k) == want,
            ),
        decreases from@.len() - i,
    {
        let k = &from[i];
        let ghost prefix = keys_view(from@).take(i + 1);
        assert(prefix.drop_last() =~= keys_view(from@).take(i as int));
        assert(prefix.last() == k@);
        if contains_key(other, k) == want && !contains_key(&out, k) {
            let ghost before = out@;
            out.push(k.duplicate());
            assert(keys_view(out@) =~= keys_view(before).push(k@));
        }
        i = i + 1;
    }
    assert(keys_view(from@).take(from@.len() as int) =~= keys_view(from@));
    out
}

/// Compares the destination list before and after a reload.
pub fn diff_destinations(old: &[DestConfig], new: &[DestConfig]) -> (r: DiffPlan)
    ensures
        (keys_view(r.added@), keys_view(r.removed@), keys_view(r.kept@)) == diff_spec(
            old@,
            new@,
        ),
{
    let old_keys = keys_of_cfgs(old);
    let new_keys = keys_of_cfgs(new);
    let added = collect_distinct(&new_keys, &old_keys, false);
    let removed = collect_distinct(&old_keys, &new_keys, false);
    let kept = collect_distinct(&new_keys, &old_keys, true);
    proof {
        let ok = keys_of(old@);
        let nk = keys_of(new@);
        assert((|k: DestKeyView| ok.contains(k) == false) =~= (|k: DestKeyView| !ok.contains(k)));
        assert((|k: DestKeyView| nk.contains(k) == false) =~= (|k: DestKeyView| !nk.contains(k)));
        assert((|k: DestKeyView| ok.contains(k) == true) =~= (|k: DestKeyView| ok.contains(k)));
    }
    DiffPlan { added, removed, kept }
}

} // verus!

verus! {

/// A key is in the distinct filter exactly when it is in the input and
/// passes the filter; the output never repeats a key.
pub proof fn lemma_distinct_filter(s: Seq<DestKeyView>, keep: spec_fn(DestKeyView) -> bool)
    ensures
        forall|k: DestKeyView| #[trigger]
            distinct_filter(s, keep).contains(k) <==> (s.contains(k) && keep(k)),
        distinct_filter(s, keep).no_duplicates(),
    decreases s.len(),
{
    if s.len() > 0 {
        let p = s.drop_last();
        lemma_distinct_filter(p, keep);
        let d = distinct_filter(p, keep);
        assert forall|k: DestKeyView| #[trigger]
            distinct_filter(s, keep).contains(k) <==> (s.contains(k) && keep(k)) by {
            let x = s.last();
            let r = distinct_filter(s, keep);
            if keep(x) && !d.contains(x) {
                assert(r == d.push(x));
            } else {
                assert(r == d);
            }
            if d.contains(k) {
                let j = choose|j: int| 0 <= j < d.len() && d[j] == k;
                assert(r[j] == k);
                let jp = choose|jp: int| 0 <= jp < p.len() && p[jp] == k;
                assert(s[jp] == k);
            }
            if s.contains(k) && keep(k) {
                let j = choose|j: int| 0 <= j < s.len() && s[j] == k;
                if j < s.len() - 1 {
                    assert(p[j] == k);
                    assert(p.contains(k));
                } else {
                    assert(k == x);
                    if !d.contains(x) {
                        assert(r[r.len() - 1] == k);
                    }
                }
            }
            if r.contains(k) && !d.contains(k) {
                let j = choose|j: int| 0 <= j < r.len() && r[j] == k;
                assert(r != d);
                assert(j == d.len());
                assert(k == x);
                assert(s[s.len() - 1] == k);
            }
        }
        if keep(s.last()) && !d.contains(s.last()) {
            assert forall|i: int, j: int|
                0 <= i < d.push(s.last()).len() && 0 <= j < d.push(s.last()).len() && i != j
                    implies d.push(s.last())[i] != d.push(s.last())[j] by {
                if i < d.len() && j < d.len() {
                } else if i == d.len() {
                    assert(d[j] == d.push(s.last())[j]);
                } else {
                    assert(d[i] == d.push(s.last())[i]);
                }
            }
        }
    }
}

/// The reload plan partitions the keys: a key is added when only the new
/// list has it, kept when both have it, and removed when only the old list
/// has it; no list of the plan repeats a key.
pub proof fn law_diff_partitions_keys(old: Seq<DestConfig>, new: Seq<DestConfig>, k: DestKeyView)
    ensures
        diff_spec(old, new).0.contains(k) <==> (keys_of(new).contains(k) && !keys_of(
            old,
        ).contains(k)),
        diff_spec(old, new).1.contains(k) <==> (keys_of(old).contains(k) && !keys_of(
            new,
        ).contains(k)),
        diff_spec(old, new).2.contains(k) <==> (keys_of(new).contains(k) && keys_of(
            old,
        ).contains(k)),
        diff_spec(old, new).0.no_duplicates(),
        diff_spec(old, new).1.no_duplicates(),
        diff_spec(old, new).2.no_duplicates(),
{
    let ok = keys_of(old);
    let nk = keys_of(new);
    lemma_distinct_filter(nk, |x: DestKeyView| !ok.contains(x));
    lemma_distinct_filter(ok, |x: DestKeyView| !nk.contains(x));
    lemma_distinct_filter(nk, |x: DestKeyView| ok.contains(x));
}

/// Diffing one destination against one other with a different identity
/// starts the new one, stops the old one and keeps nothing.
proof fn lemma_single_diff_distinct(a: DestConfig, b: DestConfig)
    requires
        key_of(a) != key_of(b),
    ensures
        diff_spec(seq![a], seq![b]).0 == seq![key_of(b)],
        diff_spec(seq![a], seq![b]).1 == seq![key_of(a)],
        diff_spec(seq![a], seq![b]).2.len() == 0,
{
    let ka = keys_of(seq![a]);
    let kb = keys_of(seq![b]);
    assert(ka =~= seq![key_of(a)]);
    assert(kb =~= seq![key_of(b)]);
    assert(!ka.contains(key_of(b)));
    assert(!kb.contains(key_of(a)));
    assert(kb.drop_last() =~= Seq::<DestKeyView>::empty());
    assert(ka.drop_last() =~= Seq::<DestKeyView>::empty());
    let f_added = |k: DestKeyView| !ka.contains(k);
    let f_removed = |k: DestKeyView| !kb.contains(k);
    let e = Seq::<DestKeyView>::empty();
    assert(distinct_filter(e, f_added) == e);
    assert(distinct_filter(e, f_removed) == e);
    assert(kb.last() == key_of(b));
    assert(ka.last() == key_of(a));
    assert(distinct_filter(kb, f_added) == e.push(key_of(b)));
    assert(distinct_filter(ka, f_removed) == e.push(key_of(a)));
    assert(e.push(key_of(b)) =~= seq![key_of(b)]);
    assert(e.push(key_of(a)) =~= seq![key_of(a)]);
    let f_kept = |k: DestKeyView| ka.contains(k);
    assert(distinct_filter(e, f_kept) == e);
    assert(distinct_filter(kb, f_kept) == e);
}

/// A destination whose transform pipeline changed is a different
/// destination: the reload stops the old one and starts the new one, and
/// keeps nothing, whatever else the two entries share.
pub proof fn law_transform_change_restarts(a: DestConfig, b: DestConfig)
    requires
        a.transforms@ != b.transforms@,
    ensures
        diff_spec(seq![a], seq![b]).0 == seq![key_of(b)],
        diff_spec(seq![a], seq![b]).1 == seq![key_of(a)],
        diff_spec(seq![a], seq![b]).2.len() == 0,
{
    assert(key_of(a).transforms != key_of(b).transforms);
    lemma_single_diff_distinct(a, b);
}

/// Whether two optional texts differ: one is set and the other not, or
/// both are set to different texts.
pub open spec fn opt_text_differs(x: Option<String>, y: Option<String>) -> bool {
    match (x, y) {
        (Some(u), Some(v)) => u@ != v@,
        (None, None) => false,
        _ => true,
    }
}

/// A destination is identified by its protocol, mode, address, cast mode,
/// multicast interface (name and index) and transform pipeline. When two
/// entries differ in any of these, a reload from one to the other never
/// keeps the running destination: it starts the new entry and stops the
/// old one.
pub proof fn law_identity_change_restarts(a: DestConfig, b: DestConfig)
    requires
        a.base.protocol != b.base.protocol || a.base.mode != b.base.mode || a.base.address@
            != b.base.address@ || a.base.cast_mode != b.base.cast_mode || opt_text_differs(
            a.base.multicast_interface,
            b.base.multicast_interface,
        ) || a.base.multicast_interface_index != b.base.multicast_interface_index
            || a.transforms@ != b.transforms@,
    ensures
        diff_spec(seq![a], seq![b]).0 == seq![key_of(b)],
        diff_spec(seq![a], seq![b]).1 == seq![key_of(a)],
        diff_spec(seq![a], seq![b]).2.len() == 0,
{
    if opt_text_differs(a.base.multicast_interface, b.base.multicast_interface) {
        assert(key_of(a).multicast_interface != key_of(b).multicast_interface);
    }
    if a.base.address@ != b.base.address@ {
        assert(key_of(a).address != key_of(b).address);
    }
    if a.transforms@ != b.transforms@ {
        assert(key_of(a).transforms != key_of(b).transforms);
    }
    lemma_single_diff_distinct(a, b);
}

/// Two entries that agree on every identity field are the same destination,
/// whatever their name, overflow policy, reconnect pause or rate limit: a
/// reload from one to the other keeps it running and starts or stops
/// nothing.
pub proof fn law_same_identity_is_kept(a: DestConfig, b: DestConfig)
    requires
        a.base.protocol == b.base.protocol,
        a.base.mode == b.base.mode,
        a.base.address@ == b.base.address@,
        a.base.cast_mode == b.base.cast_mode,
        !opt_text_differs(a.base.multicast_interface, b.base.multicast_interface),
        a.base.multicast_interface_index == b.base.multicast_interface_index,
        a.transforms@ == b.transforms@,
    ensures
        diff_spec(seq![a], seq![b]).0.len() == 0,
        diff_spec(seq![a], seq![b]).1.len() == 0,
        diff_spec(seq![a], seq![b]).2 == seq![key_of(b)],
{
    assert(key_of(a) == key_of(b));
    let ka = keys_of(seq![a]);
    let kb = keys_of(seq![b]);
    assert(ka =~= seq![key_of(a)]);
    assert(kb =~= seq![key_of(b)]);
    assert(ka.contains(key_of(b))) by {
        assert(ka[0] == key_of(b));
    }
    assert(kb.contains(key_of(a))) by {
        assert(kb[0] == key_of(a));
    }
    assert(kb.drop_last() =~= Seq::<DestKeyView>::empty());
    assert(ka.drop_last() =~= Seq::<DestKeyView>::empty());
    let e = Seq::<DestKeyView>::empty();
    let f_added = |k: DestKeyView| !ka.contains(k);
    let f_removed = |k: DestKeyView| !kb.contains(k);
    let f_kept = |k: DestKeyView| ka.contains(k);
    assert(distinct_filter(e, f_added) == e);
    assert(distinct_filter(e, f_removed) == e);
    assert(distinct_filter(e, f_kept) == e);
    assert(kb.last() == key_of(b));
    assert(ka.last() == key_of(a));
    assert(distinct_filter(kb, f_added) == e);
    assert(distinct_filter(ka, f_removed) == e);
    assert(distinct_filter(kb, f_kept) == e.push(key_of(b)));
    assert(e.push(key_of(b)) =~= seq![key_of(b)]);
}

/// Reloading an unchanged destination list adds and removes nothing.
pub proof fn law_diff_of_same_list_keeps_everything(cfgs: Seq<DestConfig>)
    ensures
        diff_spec(cfgs, cfgs).0.len() == 0,
        diff_spec(cfgs, cfgs).1.len() == 0,
        forall|k: DestKeyView| #[trigger]
            diff_spec(cfgs, cfgs).2.contains(k) <==> keys_of(cfgs).contains(k),
{
    let d = diff_spec(cfgs, cfgs);
    law_diff_partitions_keys(cfgs, cfgs, d.0[0]);
    law_diff_partitions_keys(cfgs, cfgs, d.1[0]);
    if d.0.len() > 0 {
        assert(d.0.contains(d.0[0]));
    }
    if d.1.len() > 0 {
        assert(d.1.contains(d.1[0]));
    }
    assert forall|k: DestKeyView| #[trigger]
        diff_spec(cfgs, cfgs).2.contains(k) <==> keys_of(cfgs).contains(k) by {
        law_diff_partitions_keys(cfgs, cfgs, k);
    }
}

} // verus!

verus! {

// ════════════════════════════════════════════════════════════════════
//  Per-destination live state
// ════════════════════════════════════════════════════════════════════

/// Numeric code of an overflow policy, as stored in the live state.
pub open spec fn policy_code(p: OverflowPolicy) -> u8 {
    match p {
        OverflowPolicy::DropNewest => 0,
        OverflowPolicy::Block => 1,
    }
}

/// The policy a stored code stands for; any code but `block`'s reads as
/// `drop_newest`.
pub open spec fn policy_of_code(v: u8) -> OverflowPolicy {
    if v == 1 {
        OverflowPolicy::Block
    } else {
        OverflowPolicy::DropNewest
    }
}

pub fn policy_to_u8(p: OverflowPolicy) -> (r: u8)
    ensures
        r == policy_code(p),
{
    match p {
        OverflowPolicy::DropNewest => 0,
        OverflowPolicy::Block => 1,
    }
}

pub fn u8_to_policy(v: u8) -> (r: OverflowPolicy)
    ensures
        r == policy_of_code(v),
{
    if v == 1 {
        OverflowPolicy::Block
    } else {
        OverflowPolicy::DropNewest
    }
}

/// Decoding a stored policy gives back the policy that was stored.
pub proof fn law_policy_code_roundtrip(p: OverflowPolicy)
    ensures
        policy_of_code(policy_code(p)) == p,
{
}

/// Which token bucket a destination's writes draw from.
#[derive(Debug, Clone, Copy, PartialEq, Eq, Structural)]
pub enum LimiterChoice {
    /// The destination's own limiter.
    Private,
    /// The limiter shared by every destination without its own.
    Global,
    /// No limit applies.
    Unlimited,
}

/// Per-destination state that a reload may change without restarting the
/// destination: overflow policy, reconnect delay and own rate limiter.
#[derive(Debug, Clone, Copy)]
pub struct DestRuntime {
    pub policy: u8,
    pub reconnect_delay_ms: u64,
    /// The destination's own limiter; `None` falls back to the global one.
    pub private_limiter: Option<crate::rate_limiter::RateLimiter>,
}

/// The limiter a rate-limit configuration describes.
pub open spec fn limiter_of(rl: RateLimitConfig) -> crate::rate_limiter::RateLimiter {
    crate::rate_limiter::RateLimiter {
        tokens: (rl.burst_size * crate::rate_limiter::nano()) as u128,
        last_ns: 0,
        max_tokens: (rl.burst_size * crate::rate_limiter::nano()) as u128,
        rate: rl.bytes_per_second,
    }
}

/// A rate-limit configuration describes a limiter that refills at its
/// `bytes_per_second` and holds its `burst_size` bytes, starting full with
/// its refill clock at zero.
pub proof fn law_limiter_rate_and_burst(rl: RateLimitConfig)
    ensures
        limiter_of(rl).rate == rl.bytes_per_second,
        limiter_of(rl).max_tokens == rl.burst_size * 1_000_000_000,
        limiter_of(rl).tokens == rl.burst_size * 1_000_000_000,
        limiter_of(rl).last_ns == 0,
        limiter_of(rl).wf(),
{
    assert(rl.burst_size * 1_000_000_000 <= u64::MAX * 1_000_000_000) by (nonlinear_arith)
        requires
            rl.burst_size <= u64::MAX,
    ;
}

fn limiter_for(rl: Option<&RateLimitConfig>) -> (r: Option<crate::rate_limiter::RateLimiter>)
    ensures
        r == match rl {
            Some(c) => Some(limiter_of(*c)),
            None => None,
        },
        rl is None ==> r is None,
        rl is Some ==> r is Some && r->0.rate == rl->0.bytes_per_second && r->0.max_tokens
            == rl->0.burst_size * 1_000_000_000 && r->0.tokens == rl->0.burst_size
            * 1_000_000_000 && r->0.last_ns == 0,
{
    proof {
        if rl is Some {
            law_limiter_rate_and_burst(*rl->0);
        }
    }
    match rl {
        Some(c) => Some(crate::rate_limiter::RateLimiter::new(c.bytes_per_second, c.burst_size)),
        None => None,
    }
}

impl DestRuntime {
    pub fn new(
        policy: OverflowPolicy,
        reconnect_delay_ms: u64,
        rate_limit: Option<&RateLimitConfig>,
    ) -> (r: DestRuntime)
        ensures
            r.policy == policy_code(policy),
            r.reconnect_delay_ms == reconnect_delay_ms,
            r.private_limiter == match rate_limit {
                Some(c) => Some(limiter_of(*c)),
                None => None,
            },
            rate_limit is None ==> r.private_limiter is None,
            rate_limit is Some ==> r.private_limiter is Some && r.private_limiter->0.rate
                == rate_limit->0.bytes_per_second && r.private_limiter->0.max_tokens
                == rate_limit->0.burst_size * 1_000_000_000,
    {
        DestRuntime {
            policy: policy_to_u8(policy),
            reconnect_delay_ms,
            private_limiter: limiter_for(rate_limit),
        }
    }

    pub fn policy(&self) -> (r: OverflowPolicy)
        ensures
            r == policy_of_code(self.policy),
    {
        u8_to_policy(self.policy)
    }

    pub fn set_policy(&mut self, p: OverflowPolicy)
        ensures
            *final(self) == (DestRuntime { policy: policy_code(p), ..*old(self) }),
            *final(self) == runtime_step(*old(self), RuntimeOp::SetPolicy(p)),
    {
        self.policy = policy_to_u8(p);
    }

    /// The reconnect pause, in milliseconds.
    pub fn reconnect_delay(&self) -> (r: u64)
        ensures
            r == self.reconnect_delay_ms,
    {
        self.reconnect_delay_ms
    }

    pub fn set_reconnect_delay_ms(&mut self, ms: u64)
        ensures
            *final(self) == (DestRuntime { reconnect_delay_ms: ms, ..*old(self) }),
            *final(self) == runtime_step(*old(self), RuntimeOp::SetReconnectDelay(ms)),
    {
        self.reconnect_delay_ms = ms;
    }

    /// Installs a fresh own limiter for `rate_limit`, or clears it so the
    /// destination falls back to the global limiter.
    pub fn set_private_limiter(&mut self, rate_limit: Option<&RateLimitConfig>)
        ensures
            *final(self) == (DestRuntime {
                private_limiter: match rate_limit {
                    Some(c) => Some(limiter_of(*c)),
                    None => None,
                },
                ..*old(self)
            }),
            *final(self) == runtime_step(
                *old(self),
                RuntimeOp::SetLimiter(
                    match rate_limit {
                        Some(c) => Some(*c),
                        None => None,
                    },
                ),
            ),
    {
        self.private_limiter = limiter_for(rate_limit);
    }

    /// The limiter the next write acquires from: the destination's own when
    /// it has one, else the global one when that is set, else none.
    pub fn effective_limiter(&self, global_is_set: bool) -> (r: LimiterChoice)
        ensures
            r == (if self.private_limiter is Some {
                LimiterChoice::Private
            } else if global_is_set {
                LimiterChoice::Global
            } else {
                LimiterChoice::Unlimited
            }),
    {
        if self.private_limiter.is_some() {
            LimiterChoice::Private
        } else if global_is_set {
            LimiterChoice::Global
        } else {
            LimiterChoice::Unlimited
        }
    }
}

/// Storing a policy and reading it back gives that policy.
pub proof fn law_set_policy_then_read(rt: DestRuntime, p: OverflowPolicy)
    ensures
        policy_of_code((DestRuntime { policy: policy_code(p), ..rt }).policy) == p,
{
}

/// One change to a destination's live settings, as the setters of
/// [`DestRuntime`] make it.
pub enum RuntimeOp {
    SetPolicy(OverflowPolicy),
    SetReconnectDelay(u64),
    SetLimiter(Option<RateLimitConfig>),
}

/// The settings after one change.
pub open spec fn runtime_step(rt: DestRuntime, op: RuntimeOp) -> DestRuntime {
    match op {
        RuntimeOp::SetPolicy(p) => DestRuntime { policy: policy_code(p), ..rt },
        RuntimeOp::SetReconnectDelay(ms) => DestRuntime { reconnect_delay_ms: ms, ..rt },
        RuntimeOp::SetLimiter(rl) => DestRuntime {
            private_limiter: match rl {
                Some(c) => Some(limiter_of(c)),
                None => None,
            },
            ..rt
        },
    }
}

/// The settings after a sequence of changes, applied in order.
pub open spec fn runtime_after_ops(rt: DestRuntime, ops: Seq<RuntimeOp>) -> DestRuntime
    decreases ops.len(),
{
    if ops.len() == 0 {
        rt
    } else {
        runtime_step(runtime_after_ops(rt, ops.drop_last()), ops.last())
    }
}

/// The policy of the last `SetPolicy` in `ops`, or `p0` when there is none.
pub open spec fn last_policy(p0: OverflowPolicy, ops: Seq<RuntimeOp>) -> OverflowPolicy
    decreases ops.len(),
{
    if ops.len() == 0 {
        p0
    } else {
        match ops.last() {
            RuntimeOp::SetPolicy(p) => p,
            _ => last_policy(p0, ops.drop_last()),
        }
    }
}

/// Whatever sequence of setter calls follows `DestRuntime::new(p0, ..)`,
/// the policy read back is the one the last `set_policy` stored, or `p0`
/// when there was none.
pub proof fn law_policy_reads_back_last_set(
    p0: OverflowPolicy,
    reconnect_delay_ms: u64,
    rate_limit: Option<RateLimitConfig>,
    ops: Seq<RuntimeOp>,
)
    ensures
        policy_of_code(
            runtime_after_ops(
                DestRuntime {
                    policy: policy_code(p0),
                    reconnect_delay_ms,
                    private_limiter: match rate_limit {
                        Some(c) => Some(limiter_of(c)),
                        None => None,
                    },
                },
                ops,
            ).policy,
        ) == last_policy(p0, ops),
    decreases ops.len(),
{
    if ops.len() > 0 {
        law_policy_reads_back_last_set(p0, reconnect_delay_ms, rate_limit, ops.drop_last());
    }
}

// ════════════════════════════════════════════════════════════════════
//  Endpoint labels
// ════════════════════════════════════════════════════════════════════

/// Local address shown for an endpoint: its address when it listens,
/// `(auto)` when it connects out.
pub open spec fn local_label(e: EndpointConfig) -> Seq<char> {
    if e.mode == EndpointMode::Server {
        e.address@
    } else {
        "(auto)"@
    }
}

/// Peer address shown for an endpoint: its address when it connects out,
/// `(any)` when it listens.
pub open spec fn peer_label(e: EndpointConfig) -> Seq<char> {
    if e.mode == EndpointMode::Client {
        e.address@
    } else {
        "(any)"@
    }
}

fn endpoint_stats(prefix: &str, e: &EndpointConfig) -> (s: Stats)
    ensures
        s.wf(),
        s.label@ == prefix@ + display_name_of(*e) + ")"@,
        s.local_addr@ == local_label(*e),
        s.peer_addr@ == peer_label(*e),
        s.bytes_received == 0 && s.bytes_sent == 0 && s.messages_relayed == 0,
        s.active_connections == 0 && s.total_connections == 0 && s.errors == 0,
        s.dropped_messages == 0 && s.dropped_overflow == 0 && s.dropped_oversize == 0,
        s.dropped_validation == 0 && s.dropped_write_error == 0,
{
    let mut label = String::from_str(prefix);
    let name = e.display_name();
    label.append(name.as_str());
    label.append(")");
    let local = if e.mode == EndpointMode::Server {
        e.address.clone()
    } else {
        String::from_str("(auto)")
    };
    let peer = if e.mode == EndpointMode::Client {
        e.address.clone()
    } else {
        String::from_str("(any)")
    };
    Stats::new(label.as_str(), local.as_str(), peer.as_str())
}

/// Fresh counters for the source, labelled `source(<name>)`.
pub fn build_source_stats(cfg: &EndpointConfig) -> (s: Stats)
    ensures
        s.wf(),
        s.label@ == "source("@ + display_name_of(*cfg) + ")"@,
        s.local_addr@ == local_label(*cfg),
        s.peer_addr@ == peer_label(*cfg),
        s.bytes_received == 0 && s.bytes_sent == 0 && s.messages_relayed == 0,
        s.active_connections == 0 && s.total_connections == 0 && s.errors == 0,
        s.dropped_messages == 0 && s.dropped_overflow == 0 && s.dropped_oversize == 0,
        s.dropped_validation == 0 && s.dropped_write_error == 0,
{
    endpoint_stats("source(", cfg)
}

/// Fresh counters for a destination, labelled `dest(<name>)`.
pub fn build_dest_stats(cfg: &DestConfig) -> (s: Stats)
    ensures
        s.wf(),
        s.label@ == "dest("@ + display_name_of(cfg.base) + ")"@,
        s.local_addr@ == local_label(cfg.base),
        s.peer_addr@ == peer_label(cfg.base),
        s.bytes_received == 0 && s.bytes_sent == 0 && s.messages_relayed == 0,
        s.active_connections == 0 && s.total_connections == 0 && s.errors == 0,
        s.dropped_messages == 0 && s.dropped_overflow == 0 && s.dropped_oversize == 0,
        s.dropped_validation == 0 && s.dropped_write_error == 0,
{
    endpoint_stats("dest(", &cfg.base)
}

// ════════════════════════════════════════════════════════════════════
//  Source intake and fan-out
// ════════════════════════════════════════════════════════════════════

/// Takes a datagram of `n` bytes read by the source: one larger than
/// `max_payload` is counted as an oversize drop and refused; any other is
/// counted as received and accepted for fan-out.
pub fn accept_datagram(stats: &mut Stats, n: usize, max_payload: usize) -> (r: bool)
    requires
        old(stats).wf(),
    ensures
        final(stats).wf(),
        r == (n <= max_payload),
        r ==> *final(stats) == (Stats {
            bytes_received: counter_add(old(stats).bytes_received, n as u64),
            ..*old(stats)
        }),
        !r ==> *final(stats) == (Stats {
            dropped_oversize: counter_add(old(stats).dropped_oversize, 1),
            dropped_messages: counter_add(old(stats).dropped_messages, 1),
            ..*old(stats)
        }),
{
    if n > max_payload {
        stats.add_dropped_oversize(1);
        false
    } else {
        stats.add_received(n as u64);
        true
    }
}

/// How a packet is handed to one destination's queue.
#[derive(Debug, Clone, Copy, PartialEq, Eq, Structural)]
pub enum Handoff {
    /// Offer it without waiting; a full queue drops it.
    TrySend,
    /// Wait for room in the queue.
    Send,
}

pub open spec fn handoff_for(p: OverflowPolicy) -> Handoff {
    match p {
        OverflowPolicy::DropNewest => Handoff::TrySend,
        OverflowPolicy::Block => Handoff::Send,
    }
}

/// For each destination, in order, how the source hands a packet over:
/// by the overflow policy it holds at this moment, so that a policy a
/// reload stored applies from the next packet on.
pub fn handoff_plan(runtimes: &[DestRuntime]) -> (r: Vec<Handoff>)
    ensures
        r@.len() == runtimes@.len(),
        forall|i: int|
            0 <= i < runtimes@.len() ==> #[trigger] r@[i] == handoff_for(
                policy_of_code(runtimes@[i].policy),
            ),
{
    let mut out: Vec<Handoff> = Vec::new();
    let mut i: usize = 0;
    while i < runtimes.len()
        invariant
            i <= runtimes@.len(),
            out@.len() == i,
            forall|j: int|
                0 <= j < i ==> #[trigger] out@[j] == handoff_for(policy_of_code(runtimes@[j].policy)),
        decreases runtimes@.len() - i,
    {
        let h = match runtimes[i].policy() {
            OverflowPolicy::DropNewest => Handoff::TrySend,
            OverflowPolicy::Block => Handoff::Send,
        };
        out.push(h);
        i = i + 1;
    }
    out
}

/// Accounts for one hand-over: an offer the queue refused counts as one
/// overflow drop; anything else leaves the counters as they were.
pub fn note_handoff(stats: &mut Stats, h: Handoff, accepted: bool)
    requires
        old(stats).wf(),
    ensures
        final(stats).wf(),
        (h == Handoff::TrySend && !accepted) ==> *final(stats) == (Stats {
            dropped_overflow: counter_add(old(stats).dropped_overflow, 1),
            dropped_messages: counter_add(old(stats).dropped_messages, 1),
            ..*old(stats)
        }),
        !(h == Handoff::TrySend && !accepted) ==> *final(stats) == *old(stats),
{
    if h == Handoff::TrySend && !accepted {
        stats.add_dropped_overflow(1);
    }
}

/// Accounts for one write to a destination: `Some(n)` bytes written count
/// as sent (and as a relayed message when `count_message`); a failed write
/// counts as an error and as a payload dropped on write.
pub fn record_write(stats: &mut Stats, written: Option<u64>, count_message: bool)
    requires
        old(stats).wf(),
    ensures
        final(stats).wf(),
        match written {
            Some(n) => *final(stats) == (Stats {
                bytes_sent: counter_add(old(stats).bytes_sent, n),
                messages_relayed: if count_message {
                    counter_add(old(stats).messages_relayed, 1)
                } else {
                    old(stats).messages_relayed
                },
                ..*old(stats)
            }),
            None => *final(stats) == (Stats {
                errors: counter_add(old(stats).errors, 1),
                dropped_write_error: counter_add(old(stats).dropped_write_error, 1),
                dropped_messages: counter_add(old(stats).dropped_messages, 1),
                ..*old(stats)
            }),
        },
{
    match written {
        Some(n) => {
            stats.add_sent(n);
            if count_message {
                stats.msg_relayed();
            }
        },
        None => {
            stats.add_error();
            stats.add_dropped_write_error(1);
        },
    }
}

} // verus!

verus! {

// ════════════════════════════════════════════════════════════════════
//  Relay start-up state
// ════════════════════════════════════════════════════════════════════

/// What the relay holds before it starts running: its configuration, the
/// global limiter, the stats interval, and fresh counters for the source
/// and each destination in configuration order.
#[derive(Debug)]
pub struct Relay {
    pub config_path: String,
    pub config: crate::config::RelayConfig,
    pub limiter: Option<crate::rate_limiter::RateLimiter>,
    pub stats_interval_secs: u64,
    pub source_stats: Stats,
    pub dest_stats: Vec<Stats>,
}

/// Fresh counters built for the source: `source(<name>)` and its addresses.
pub open spec fn source_stats_ok(s: Stats, e: EndpointConfig) -> bool {
    &&& s.wf()
    &&& s.label@ == "source("@ + display_name_of(e) + ")"@
    &&& s.local_addr@ == local_label(e)
    &&& s.peer_addr@ == peer_label(e)
    &&& s.bytes_received == 0 && s.bytes_sent == 0 && s.messages_relayed == 0
    &&& s.active_connections == 0 && s.total_connections == 0 && s.errors == 0
    &&& s.dropped_messages == 0 && s.dropped_overflow == 0 && s.dropped_oversize == 0
    &&& s.dropped_validation == 0 && s.dropped_write_error == 0
}

/// Fresh counters built for a destination: `dest(<name>)` and its addresses.
pub open spec fn dest_stats_ok(s: Stats, d: DestConfig) -> bool {
    &&& s.wf()
    &&& s.label@ == "dest("@ + display_name_of(d.base) + ")"@
    &&& s.local_addr@ == local_label(d.base)
    &&& s.peer_addr@ == peer_label(d.base)
    &&& s.bytes_received == 0 && s.bytes_sent == 0 && s.messages_relayed == 0
    &&& s.active_connections == 0 && s.total_connections == 0 && s.errors == 0
    &&& s.dropped_messages == 0 && s.dropped_overflow == 0 && s.dropped_oversize == 0
    &&& s.dropped_validation == 0 && s.dropped_write_error == 0
}

impl Relay {
    pub fn new(config: crate::config::RelayConfig, config_path: String) -> (r: Relay)
        ensures
            r.config == config,
            r.config_path == config_path,
            r.limiter == match config.rate_limit {
                Some(rl) => Some(limiter_of(rl)),
                None => None,
            },
            config.rate_limit is None ==> r.limiter is None,
            config.rate_limit is Some ==> r.limiter is Some && r.limiter->0.rate
                == config.rate_limit->0.bytes_per_second && r.limiter->0.max_tokens
                == config.rate_limit->0.burst_size * 1_000_000_000,
            r.stats_interval_secs == config.general.stats_interval_secs,
            source_stats_ok(r.source_stats, config.source),
            r.dest_stats@.len() == config.destinations@.len(),
            forall|i: int|
                0 <= i < config.destinations@.len() ==> #[trigger] dest_stats_ok(
                    r.dest_stats@[i],
                    config.destinations@[i],
                ),
    {
        let limiter = limiter_for(config.rate_limit.as_ref());
        let source_stats = build_source_stats(&config.source);
        let mut dest_stats: Vec<Stats> = Vec::new();
        let mut i: usize = 0;
        while i < config.destinations.len()
            invariant
                i <= config.destinations@.len(),
                dest_stats@.len() == i,
                forall|j: int|
                    0 <= j < i ==> #[trigger] dest_stats_ok(dest_stats@[j], config.destinations@[j]),
            decreases config.destinations@.len() - i,
        {
            dest_stats.push(build_dest_stats(&config.destinations[i]));
            i = i + 1;
        }
        let stats_interval_secs = config.general.stats_interval_secs;
        Relay { config_path, config, limiter, stats_interval_secs, source_stats, dest_stats }
    }
}

} // verus!

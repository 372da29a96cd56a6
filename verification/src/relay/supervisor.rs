//! The running destinations, keyed by [`DestKey`]. Each entry holds the
//! destination's live settings and whatever the relay keeps to drive it
//! (queue, task, counters). Adding, removing or updating one destination
//! leaves every other entry as it was.
use vstd::prelude::*;
use crate::config::{default_reconnect_delay_ms, DestConfig};
use crate::relay::reload::{
    dest_reload_ok, last_index, lemma_last_index, update_ok, DestReload, DestUpdate,
};
use crate::relay::{
    diff_spec, key_of, keys_of, keys_view, law_diff_partitions_keys, limiter_of, policy_code, DestKey, DestKeyView, DestRuntime};

verus! {

/// One running destination: its live settings and the relay's handle on it.
#[derive(Debug)]
pub struct DestEntry<T> {
    pub runtime: DestRuntime,
    pub handle: T,
}

/// The running destinations, each key at most once.
#[derive(Debug)]
pub struct DestSupervisor<T> {
    pub entries: Vec<(DestKey, DestEntry<T>)>,
}

/// The live settings a destination starts with: its overflow policy, its
/// reconnect pause (2000 ms unless set), and its own limiter when it has a
/// rate limit.
pub open spec fn runtime_of(cfg: DestConfig) -> DestRuntime {
    DestRuntime {
        policy: policy_code(cfg.overflow_policy),
        reconnect_delay_ms: match cfg.base.reconnect_delay_ms {
            Some(ms) => ms,
            None => default_reconnect_delay_ms(),
        },
        private_limiter: match cfg.rate_limit {
            Some(rl) => Some(limiter_of(rl)),
            None => None,
        },
    }
}

/// Builds the live settings of a destination about to start.
pub fn runtime_for(cfg: &DestConfig) -> (r: DestRuntime)
    ensures
        r == runtime_of(*cfg),
{
    let delay = match cfg.base.reconnect_delay_ms {
        Some(ms) => ms,
        None => 2000,
    };
    DestRuntime::new(cfg.overflow_policy, delay, cfg.rate_limit.as_ref())
}

/// What one in-place update does to a destination's settings: each field
/// the update carries replaces the current one.
pub open spec fn updated_runtime(rt: DestRuntime, u: DestUpdate) -> DestRuntime {
    DestRuntime {
        policy: match u.policy {
            Some(p) => policy_code(p),
            None => rt.policy,
        },
        reconnect_delay_ms: match u.reconnect_delay_ms {
            Some(ms) => ms,
            None => rt.reconnect_delay_ms,
        },
        private_limiter: match u.rate_limit {
            Some(rl) => match rl {
                Some(c) => Some(limiter_of(c)),
                None => None,
            },
            None => rt.private_limiter,
        },
    }
}

/// The settings of the destination keyed `k` after the updates `us` are
/// applied in order; updates for other keys leave them alone.
pub open spec fn runtime_after(rt: DestRuntime, k: DestKeyView, us: Seq<DestUpdate>) -> DestRuntime
    decreases us.len(),
{
    if us.len() == 0 {
        rt
    } else {
        let before = runtime_after(rt, k, us.drop_last());
        if us.last().key@ == k {
            updated_runtime(before, us.last())
        } else {
            before
        }
    }
}

/// Updates aimed at other destinations leave a destination's settings as
/// they were.
pub proof fn law_updates_for_others_change_nothing(
    rt: DestRuntime,
    k: DestKeyView,
    us: Seq<DestUpdate>,
)
    requires
        forall|j: int| 0 <= j < us.len() ==> #[trigger] us[j].key@ != k,
    ensures
        runtime_after(rt, k, us) == rt,
    decreases us.len(),
{
    if us.len() > 0 {
        law_updates_for_others_change_nothing(rt, k, us.drop_last());
    }
}

/// Where each key of `order` that runs sits among the entries keyed `ks`,
/// in the order of `order`; keys that do not run are skipped.
pub open spec fn view_indices(ks: Seq<DestKeyView>, order: Seq<DestKeyView>) -> Seq<int>
    decreases order.len(),
{
    if order.len() == 0 {
        Seq::empty()
    } else {
        let before = view_indices(ks, order.drop_last());
        if ks.contains(order.last()) {
            before.push(ks.index_of(order.last()))
        } else {
            before
        }
    }
}

/// The keys of a list of entries, in order.
pub open spec fn entry_keys<T>(es: Seq<(DestKey, DestEntry<T>)>) -> Seq<DestKeyView> {
    es.map_values(|e: (DestKey, DestEntry<T>)| e.0@)
}

/// Taking the destinations keyed `rm` out of `es`, one key after the other:
/// the entries left, and the entries taken out, in the order of `rm`. A key
/// that does not run (or was already taken out) takes nothing out.
pub open spec fn take_out<T>(es: Seq<(DestKey, DestEntry<T>)>, rm: Seq<DestKeyView>) -> (
    Seq<(DestKey, DestEntry<T>)>,
    Seq<DestEntry<T>>,
)
    decreases rm.len(),
{
    if rm.len() == 0 {
        (es, Seq::empty())
    } else {
        let (rest, out) = take_out(es, rm.drop_last());
        let ks = entry_keys(rest);
        if ks.contains(rm.last()) {
            let i = ks.index_of(rm.last());
            (rest.remove(i), out.push(rest[i].1))
        } else {
            (rest, out)
        }
    }
}

/// The keys of the destinations a reload plan starts, in order.
pub open spec fn spawn_keys(plan: DestReload, new: Seq<DestConfig>) -> Seq<DestKeyView> {
    plan.spawn@.map_values(|i: usize| key_of(new[i as int]))
}

impl<T> DestSupervisor<T> {
    /// What following `plan` does to the running set, from `before` to
    /// `after`: the destinations it removes are taken out and come back, in
    /// `removed`, in the order the plan names them; the others keep running
    /// with their own handle and the plan's updates applied to their
    /// settings; each destination it starts runs with the settings of its
    /// new entry and the handle made for it (`handles`, in the plan's order).
    pub open spec fn reload_result(
        before: DestSupervisor<T>,
        after: DestSupervisor<T>,
        plan: DestReload,
        new: Seq<DestConfig>,
        handles: Seq<T>,
        removed: Seq<DestEntry<T>>,
    ) -> bool {
        let sk = spawn_keys(plan, new);
        let rm = keys_view(plan.remove@);
        &&& after.wf()
        &&& removed == take_out(before.entries@, rm).1
        &&& forall|k: DestKeyView| #[trigger]
            after.keys().contains(k) <==> ((before.keys().contains(k) && !rm.contains(k))
                || sk.contains(k))
        &&& forall|k: DestKeyView, e: DestEntry<T>|
            #[trigger] before.runs(k, e) && !sk.contains(k) && !rm.contains(k) ==> after.runs(
                k,
                DestEntry { runtime: runtime_after(e.runtime, k, plan.updates@), handle: e.handle },
            )
        &&& forall|j: int|
            0 <= j < sk.len() && (forall|j2: int| j < j2 < sk.len() ==> sk[j2] != sk[j])
                ==> after.runs(
                #[trigger] sk[j],
                DestEntry { runtime: runtime_of(new[plan.spawn@[j] as int]), handle: handles[j] },
            )
    }
}

impl<T> DestSupervisor<T> {
    /// The keys of the running destinations, in entry order.
    pub open spec fn keys(&self) -> Seq<DestKeyView> {
        entry_keys(self.entries@)
    }

    /// No destination is registered twice.
    pub open spec fn wf(&self) -> bool {
        self.keys().no_duplicates()
    }

    /// The destination keyed `k` runs as the entry `e` (settings and handle).
    pub open spec fn runs(&self, k: DestKeyView, e: DestEntry<T>) -> bool {
        exists|i: int|
            0 <= i < self.entries@.len() && (#[trigger] self.entries@[i]).0@ == k
                && self.entries@[i].1 == e
    }

    /// The destination keyed `k` runs with the settings `rt`.
    pub open spec fn runs_with(&self, k: DestKeyView, rt: DestRuntime) -> bool {
        exists|i: int|
            0 <= i < self.entries@.len() && (#[trigger] self.entries@[i]).0@ == k
                && self.entries@[i].1.runtime == rt
    }

    /// The supervisor runs exactly the destinations of `cfgs`, each with the
    /// settings of the last entry naming it.
    pub open spec fn built_from(&self, cfgs: Seq<DestConfig>) -> bool {
        &&& self.wf()
        &&& forall|k: DestKeyView| #[trigger] self.keys().contains(k) <==> keys_of(cfgs).contains(k)
        &&& forall|k: DestKeyView|
            #[trigger] keys_of(cfgs).contains(k) ==> self.runs_with(
                k,
                runtime_of(cfgs[last_index(keys_of(cfgs), k)]),
            )
    }

    pub fn new() -> (r: DestSupervisor<T>)
        ensures
            r.wf(),
            r.entries@.len() == 0,
    {
        let r = DestSupervisor { entries: Vec::new() };
        assert(r.keys() =~= Seq::<DestKeyView>::empty());
        r
    }

    /// Registers the destinations of the starting configuration, in order,
    /// each with the handle the relay made for it (`handles[i]` for
    /// `cfgs[i]`). A destination named twice runs once, with the settings
    /// and handle of its last entry; when no destination is named twice the
    /// entries follow `cfgs` one for one.
    pub fn spawn_initial(cfgs: &[DestConfig], handles: Vec<T>) -> (r: DestSupervisor<T>)
        requires
            handles@.len() == cfgs@.len(),
        ensures
            r.built_from(cfgs@),
            forall|k: DestKeyView| #[trigger]
                keys_of(cfgs@).contains(k) ==> r.runs(
                    k,
                    DestEntry {
                        runtime: runtime_of(cfgs@[last_index(keys_of(cfgs@), k)]),
                        handle: handles@[last_index(keys_of(cfgs@), k)],
                    },
                ),
            keys_of(cfgs@).no_duplicates() ==> r.entries@.len() == cfgs@.len() && forall|i: int|
                0 <= i < cfgs@.len() ==> (#[trigger] r.entries@[i]).0@ == key_of(cfgs@[i])
                    && r.entries@[i].1 == (DestEntry {
                    runtime: runtime_of(cfgs@[i]),
                    handle: handles@[i],
                }),
    {
        let ghost hs0 = handles@;
        let mut sup = DestSupervisor::new();
        let mut hs = handles;
        let mut i: usize = 0;
        assert(cfgs@.take(0) =~= Seq::<DestConfig>::empty());
        assert(keys_of(cfgs@.take(0)) =~= Seq::<DestKeyView>::empty());
        assert(hs@ =~= hs0.skip(0));
        while i < cfgs.len()
            invariant
                i <= cfgs@.len(),
                hs0.len() == cfgs@.len(),
                hs@ == hs0.skip(i as int),
                sup.built_from(cfgs@.take(i as int)),
                forall|k: DestKeyView| #[trigger]
                    keys_of(cfgs@.take(i as int)).contains(k) ==> sup.runs(
                        k,
                        DestEntry {
                            runtime: runtime_of(cfgs@[last_index(keys_of(cfgs@.take(i as int)), k)]),
                            handle: hs0[last_index(keys_of(cfgs@.take(i as int)), k)],
                        },
                    ),
                keys_of(cfgs@).no_duplicates() ==> sup.entries@.len() == i && forall|t: int|
                    0 <= t < i ==> (#[trigger] sup.entries@[t]).0@ == key_of(cfgs@[t])
                        && sup.entries@[t].1 == (DestEntry {
                        runtime: runtime_of(cfgs@[t]),
                        handle: hs0[t],
                    }),
            decreases cfgs@.len() - i,
        {
            let ghost pre = cfgs@.take(i as int);
            let ghost cur = cfgs@.take(i + 1);
            let ghost kk = key_of(cfgs@[i as int]);
            proof {
                assert(cur.drop_last() =~= pre);
                assert(keys_of(cur) =~= keys_of(pre).push(kk));
                assert(hs@[0] == hs0[i as int]);
            }
            let c = &cfgs[i];
            let h = hs.remove(0);
            proof {
                assert(hs@ =~= hs0.skip(i + 1));
            }
            let key = DestKey::from_cfg(c);
            let entry = DestEntry { runtime: runtime_for(c), handle: h };
            let ghost ev = DestEntry { runtime: runtime_of(cfgs@[i as int]), handle: hs0[i as int] };
            assert(entry == ev);
            let ghost before = sup;
            let ghost pair = (key, entry);
            sup.insert(key, entry);
            proof {
                assert(sup.runs(kk, ev));
                assert forall|k: DestKeyView| #[trigger]
                    sup.keys().contains(k) <==> keys_of(cur).contains(k) by {
                    let kc = keys_of(cur);
                    let kp = keys_of(pre);
                    assert(before.keys().contains(k) == kp.contains(k));
                    assert(before.keys().contains(kk) == kp.contains(kk));
                    assert(kc[i as int] == kk);
                    if kc.contains(k) && k != kk {
                        let t = choose|t: int| 0 <= t < kc.len() && kc[t] == k;
                        assert(kp[t] == k);
                    }
                    if kp.contains(k) {
                        let t = choose|t: int| 0 <= t < kp.len() && kp[t] == k;
                        assert(kc[t] == k);
                    }
                    if before.keys().contains(kk) {
                        assert(sup.keys() == before.keys());
                    } else {
                        assert(sup.keys() == before.keys().push(kk));
                        assert(sup.keys()[before.keys().len() as int] == kk);
                        if sup.keys().contains(k) && k != kk {
                            let t = choose|t: int| 0 <= t < sup.keys().len() && sup.keys()[t] == k;
                            assert(before.keys()[t] == k);
                        }
                        if before.keys().contains(k) {
                            let t = choose|t: int|
                                0 <= t < before.keys().len() && before.keys()[t] == k;
                            assert(sup.keys()[t] == k);
                        }
                    }
                }
                assert forall|k: DestKeyView| #[trigger] keys_of(cur).contains(k) implies sup.runs(
                    k,
                    DestEntry {
                        runtime: runtime_of(cfgs@[last_index(keys_of(cur), k)]),
                        handle: hs0[last_index(keys_of(cur), k)],
                    },
                ) by {
                    assert(keys_of(cur).drop_last() =~= keys_of(pre));
                    if k == kk {
                        assert(last_index(keys_of(cur), k) == i);
                    } else {
                        assert(last_index(keys_of(cur), k) == last_index(keys_of(pre), k));
                        let t = choose|t: int| 0 <= t < keys_of(cur).len() && keys_of(cur)[t] == k;
                        assert(keys_of(pre)[t] == k);
                        assert(keys_of(pre).contains(k));
                        assert(before.runs(
                            k,
                            DestEntry {
                                runtime: runtime_of(cfgs@[last_index(keys_of(pre), k)]),
                                handle: hs0[last_index(keys_of(pre), k)],
                            },
                        ));
                    }
                }
                assert forall|k: DestKeyView| #[trigger] keys_of(cur).contains(k) implies sup.runs_with(
                    k,
                    runtime_of(cur[last_index(keys_of(cur), k)]),
                ) by {
                    lemma_last_index(keys_of(cur), k);
                    let li = last_index(keys_of(cur), k);
                    assert(cur[li] == cfgs@[li]);
                    let e = DestEntry { runtime: runtime_of(cfgs@[li]), handle: hs0[li] };
                    assert(sup.runs(k, e));
                    let t = choose|t: int|
                        0 <= t < sup.entries@.len() && (#[trigger] sup.entries@[t]).0@ == k
                            && sup.entries@[t].1 == e;
                    assert(sup.entries@[t].1.runtime == runtime_of(cur[li]));
                }
                if keys_of(cfgs@).no_duplicates() {
                    assert(!keys_of(pre).contains(kk)) by {
                        if keys_of(pre).contains(kk) {
                            let t = choose|t: int|
                                0 <= t < keys_of(pre).len() && keys_of(pre)[t] == kk;
                            assert(keys_of(cfgs@)[t] == kk);
                            assert(keys_of(cfgs@)[i as int] == kk);
                        }
                    }
                    assert(!before.keys().contains(kk));
                    assert(sup.entries@ == before.entries@.push(pair));
                    assert forall|t: int| 0 <= t < i + 1 implies (#[trigger] sup.entries@[t]).0@
                        == key_of(cfgs@[t]) && sup.entries@[t].1 == (DestEntry {
                        runtime: runtime_of(cfgs@[t]),
                        handle: hs0[t],
                    }) by {
                        if t < i {
                            assert(sup.entries@[t] == before.entries@[t]);
                        }
                    }
                }
            }
            i = i + 1;
        }
        assert(cfgs@.take(cfgs@.len() as int) =~= cfgs@);
        sup
    }

    /// Follows a reload plan: takes out the destinations it removes and
    /// hands them back so the relay can drain them, applies its in-place
    /// updates, then registers the destinations it starts with the handles
    /// the relay made for them, in the plan's order.
    pub fn apply_reload(&mut self, plan: &DestReload, new: &[DestConfig], handles: Vec<T>) -> (r: Vec<
        DestEntry<T>,
    >)
        requires
            old(self).wf(),
            handles@.len() == plan.spawn@.len(),
            forall|j: int| 0 <= j < plan.spawn@.len() ==> #[trigger] plan.spawn@[j] < new@.len(),
        ensures
            Self::reload_result(*old(self), *final(self), *plan, new@, handles@, r@),
    {
        let ghost b = *self;
        let ghost sk = spawn_keys(*plan, new@);
        let ghost rm = keys_view(plan.remove@);
        let ghost hs0 = handles@;
        // Removals.
        let mut removed: Vec<DestEntry<T>> = Vec::new();
        let mut m: usize = 0;
        assert(rm.take(0) =~= Seq::<DestKeyView>::empty());
        while m < plan.remove.len()
            invariant
                m <= plan.remove@.len(),
                rm == keys_view(plan.remove@),
                self.wf(),
                self.entries@ == take_out(b.entries@, rm.take(m as int)).0,
                removed@ == take_out(b.entries@, rm.take(m as int)).1,
                forall|k: DestKeyView| #[trigger]
                    self.keys().contains(k) <==> (b.keys().contains(k) && !rm.take(
                        m as int,
                    ).contains(k)),
                forall|k: DestKeyView, e: DestEntry<T>|
                    #[trigger] b.runs(k, e) && !rm.take(m as int).contains(k) ==> self.runs(k, e),
            decreases plan.remove@.len() - m,
        {
            let ghost before = *self;
            let ghost kk = plan.remove@[m as int]@;
            proof {
                assert(rm[m as int] == kk);
                assert(rm.take(m + 1) =~= rm.take(m as int).push(kk));
                assert(rm.take(m + 1).drop_last() =~= rm.take(m as int));
            }
            match self.remove(&plan.remove[m]) {
                Some(e) => {
                    removed.push(e);
                },
                None => {},
            }
            proof {
                let pre = rm.take(m as int);
                let cur = rm.take(m + 1);
                assert(cur.last() == kk);
                assert(entry_keys(before.entries@) == before.keys());
                assert forall|k: DestKeyView| #[trigger]
                    self.keys().contains(k) <==> (b.keys().contains(k) && !cur.contains(k)) by {
                    assert(before.keys().contains(k) == (b.keys().contains(k) && !pre.contains(k)));
                    assert(cur[m as int] == kk);
                    if cur.contains(k) && k != kk {
                        let t = choose|t: int| 0 <= t < cur.len() && cur[t] == k;
                        assert(pre[t] == k);
                    }
                    if pre.contains(k) {
                        let t = choose|t: int| 0 <= t < pre.len() && pre[t] == k;
                        assert(cur[t] == k);
                    }
                    if before.keys().contains(kk) {
                        let i = before.keys().index_of(kk);
                        before.keys().index_of_first_ensures(kk);
                        assert(self.entries@ == before.entries@.remove(i));
                        assert(self.keys() =~= before.keys().remove(i));
                        if self.keys().contains(k) {
                            let t = choose|t: int|
                                0 <= t < self.keys().len() && self.keys()[t] == k;
                            let t2 = if t < i {
                                t
                            } else {
                                t + 1
                            };
                            assert(before.keys()[t2] == k);
                        }
                        if before.keys().contains(k) && k != kk {
                            let t = choose|t: int|
                                0 <= t < before.keys().len() && before.keys()[t] == k;
                            assert(t != i);
                            let t2 = if t < i {
                                t
                            } else {
                                t - 1
                            };
                            assert(self.keys()[t2] == k);
                        }
                    } else {
                        assert(self.entries@ == before.entries@);
                        assert(self.keys() =~= before.keys());
                    }
                }
                assert forall|k: DestKeyView, e: DestEntry<T>|
                    #[trigger] b.runs(k, e) && !cur.contains(k) implies self.runs(k, e) by {
                    assert(cur[m as int] == kk);
                    if pre.contains(k) {
                        let t = choose|t: int| 0 <= t < pre.len() && pre[t] == k;
                        assert(cur[t] == k);
                    }
                    assert(before.runs(k, e));
                }
            }
            m = m + 1;
        }
        assert(rm.take(plan.remove@.len() as int) =~= rm);
        let ghost gone = *self;
        // In-place updates.
        self.apply_updates(&plan.updates);
        let ghost mid = *self;
        proof {
            assert forall|k: DestKeyView, e: DestEntry<T>| #[trigger] gone.runs(k, e) implies mid.runs(
                k,
                DestEntry { runtime: runtime_after(e.runtime, k, plan.updates@), handle: e.handle },
            ) by {
                let t = choose|t: int|
                    0 <= t < gone.entries@.len() && (#[trigger] gone.entries@[t]).0@ == k
                        && gone.entries@[t].1 == e;
                assert(gone.keys()[t] == k);
                assert(mid.keys()[t] == mid.entries@[t].0@);
            }
        }
        // Starts.
        let mut hs = handles;
        let mut j: usize = 0;
        assert(hs@ =~= hs0.skip(0));
        while j < plan.spawn.len()
            invariant
                j <= plan.spawn@.len(),
                hs0.len() == plan.spawn@.len(),
                hs@ == hs0.skip(j as int),
                forall|t: int| 0 <= t < plan.spawn@.len() ==> #[trigger] plan.spawn@[t] < new@.len(),
                sk == spawn_keys(*plan, new@),
                self.wf(),
                forall|k: DestKeyView| #[trigger]
                    self.keys().contains(k) <==> (mid.keys().contains(k) || sk.take(
                        j as int,
                    ).contains(k)),
                forall|k: DestKeyView, e: DestEntry<T>|
                    #[trigger] mid.runs(k, e) && !sk.take(j as int).contains(k) ==> self.runs(k, e),
                forall|t: int|
                    0 <= t < j && (forall|t2: int| t < t2 < j ==> sk[t2] != sk[t]) ==> self.runs(
                        #[trigger] sk[t],
                        DestEntry {
                            runtime: runtime_of(new@[plan.spawn@[t] as int]),
                            handle: hs0[t],
                        },
                    ),
            decreases plan.spawn@.len() - j,
        {
            let idx = plan.spawn[j];
            let c = &new[idx];
            proof {
                assert(hs@[0] == hs0[j as int]);
            }
            let h = hs.remove(0);
            proof {
                assert(hs@ =~= hs0.skip(j + 1));
            }
            let key = DestKey::from_cfg(c);
            let entry = DestEntry { runtime: runtime_for(c), handle: h };
            let ghost ev = DestEntry { runtime: runtime_of(new@[idx as int]), handle: hs0[j as int] };
            assert(entry == ev);
            let ghost before = *self;
            let ghost kk = key@;
            proof {
                assert(sk[j as int] == kk);
                assert(sk.take(j + 1) =~= sk.take(j as int).push(kk));
            }
            self.insert(key, entry);
            proof {
                let pre = sk.take(j as int);
                let cur = sk.take(j + 1);
                assert(self.runs(kk, ev));
                assert forall|k: DestKeyView| #[trigger]
                    self.keys().contains(k) <==> (mid.keys().contains(k) || cur.contains(k)) by {
                    assert(before.keys().contains(k) == (mid.keys().contains(k) || pre.contains(k)));
                    assert(before.keys().contains(kk) == (mid.keys().contains(kk) || pre.contains(kk)));
                    assert(cur[j as int] == kk);
                    if cur.contains(k) && k != kk {
                        let t = choose|t: int| 0 <= t < cur.len() && cur[t] == k;
                        assert(pre[t] == k);
                    }
                    if pre.contains(k) {
                        let t = choose|t: int| 0 <= t < pre.len() && pre[t] == k;
                        assert(cur[t] == k);
                    }
                    if before.keys().contains(kk) {
                        assert(self.keys() == before.keys());
                    } else {
                        assert(self.keys() == before.keys().push(kk));
                        assert(self.keys()[before.keys().len() as int] == kk);
                        if self.keys().contains(k) && k != kk {
                            let t = choose|t: int|
                                0 <= t < self.keys().len() && self.keys()[t] == k;
                            assert(before.keys()[t] == k);
                        }
                        if before.keys().contains(k) {
                            let t = choose|t: int|
                                0 <= t < before.keys().len() && before.keys()[t] == k;
                            assert(self.keys()[t] == k);
                        }
                    }
                }
                assert forall|k: DestKeyView, e: DestEntry<T>|
                    #[trigger] mid.runs(k, e) && !cur.contains(k) implies self.runs(k, e) by {
                    assert(cur[j as int] == kk);
                    if pre.contains(k) {
                        let t = choose|t: int| 0 <= t < pre.len() && pre[t] == k;
                        assert(cur[t] == k);
                    }
                    assert(before.runs(k, e));
                }
                assert forall|t: int|
                    0 <= t < j + 1 && (forall|t2: int| t < t2 < j + 1 ==> sk[t2] != sk[t])
                        implies self.runs(
                    #[trigger] sk[t],
                    DestEntry { runtime: runtime_of(new@[plan.spawn@[t] as int]), handle: hs0[t] },
                ) by {
                    if t < j {
                        assert(sk[j as int] != sk[t]);
                        assert(before.runs(
                            sk[t],
                            DestEntry {
                                runtime: runtime_of(new@[plan.spawn@[t] as int]),
                                handle: hs0[t],
                            },
                        ));
                    }
                }
            }
            j = j + 1;
        }
        assert(sk.take(plan.spawn@.len() as int) =~= sk);
        proof {
            assert forall|k: DestKeyView| #[trigger]
                self.keys().contains(k) <==> ((b.keys().contains(k) && !rm.contains(k))
                    || sk.contains(k)) by {
                assert(mid.keys() == gone.keys());
                assert(gone.keys().contains(k) == (b.keys().contains(k) && !rm.contains(k)));
            }
            assert forall|k: DestKeyView, e: DestEntry<T>|
                #[trigger] b.runs(k, e) && !sk.contains(k) && !rm.contains(k) implies self.runs(
                k,
                DestEntry { runtime: runtime_after(e.runtime, k, plan.updates@), handle: e.handle },
            ) by {
                assert(gone.runs(k, e));
                assert(mid.runs(
                    k,
                    DestEntry {
                        runtime: runtime_after(e.runtime, k, plan.updates@),
                        handle: e.handle,
                    },
                ));
            }
        }
        removed
    }

    /// How many destinations are running.
    pub fn entry_count(&self) -> (r: usize)
        ensures
            r == self.keys().len(),
    {
        self.entries.len()
    }

    fn index_of(&self, key: &DestKey) -> (r: Option<usize>)
        ensures
            match r {
                Some(i) => i < self.keys().len() && self.keys()[i as int] == key@,
                None => !self.keys().contains(key@),
            },
    {
        let mut i: usize = 0;
        while i < self.entries.len()
            invariant
                i <= self.entries@.len(),
                forall|j: int| 0 <= j < i ==> self.keys()[j] != key@,
            decreases self.entries@.len() - i,
        {
            if self.entries[i].0.same(key) {
                return Some(i);
            }
            i = i + 1;
        }
        None
    }

    /// The live settings of the destination keyed `key`, if it runs.
    pub fn entry_runtime(&self, key: &DestKey) -> (r: Option<&DestRuntime>)
        ensures
            match r {
                Some(rt) => exists|i: int|
                    0 <= i < self.keys().len() && self.keys()[i] == key@ && *rt
                        == self.entries@[i].1.runtime,
                None => !self.keys().contains(key@),
            },
    {
        match self.index_of(key) {
            Some(i) => Some(&self.entries[i].1.runtime),
            None => None,
        }
    }

    /// Registers a destination. One already running under `key` is
    /// replaced in its place and handed back; a new one goes last. Every
    /// other entry stays as it was.
    pub fn insert(&mut self, key: DestKey, entry: DestEntry<T>) -> (r: Option<DestEntry<T>>)
        requires
            old(self).wf(),
        ensures
            final(self).wf(),
            old(self).keys().contains(key@) ==> {
                let i = old(self).keys().index_of(key@);
                &&& r == Some(old(self).entries@[i].1)
                &&& final(self).entries@ == old(self).entries@.update(i, (key, entry))
                &&& final(self).keys() == old(self).keys()
            },
            !old(self).keys().contains(key@) ==> r is None && final(self).keys() == old(
                self,
            ).keys().push(key@) && final(self).entries@ == old(self).entries@.push((key, entry)),
            exists|i: int|
                0 <= i < final(self).entries@.len() && final(self).keys()[i] == key@
                    && final(self).entries@[i].1 == entry,
            final(self).runs(key@, entry),
            forall|k: DestKeyView, e: DestEntry<T>|
                k != key@ && old(self).runs(k, e) ==> #[trigger] final(self).runs(k, e),
    {
        let ghost key_view = key@;
        let ghost entry_rt = entry.runtime;
        let ghost es0 = self.entries@;
        let ghost pair = (key, entry);
        match self.index_of(&key) {
            Some(i) => {
                let ghost ks = self.keys();
                let ghost es = self.entries@;
                proof {
                    ks.index_of_first_ensures(key_view);
                    assert(ks.index_of(key_view) == i) by {
                        let k = ks.index_of(key_view);
                        if k != i {
                            assert(ks[k] == key_view);
                        }
                    }
                }
                let (_, old_entry) = self.entries.remove(i);
                self.entries.insert(i, (key, entry));
                assert(self.entries@ =~= es.update(i as int, pair));
                assert(self.keys() =~= ks);
                proof {
                    assert forall|j: int|
                        0 <= j < es.len() && ks[j] != self.keys()[i as int] implies #[trigger]
                        self.entries@[j] == es[j] by {
                        assert(j != i);
                    }
                    assert(self.keys()[i as int] == self.entries@[i as int].0@);
                    assert(self.entries@[i as int].0@ == key_view);
                    assert forall|k: DestKeyView, e: DestEntry<T>|
                        k != key_view && (exists|t: int|
                            0 <= t < es0.len() && (#[trigger] es0[t]).0@ == k && es0[t].1
                                == e) implies #[trigger] self.runs(k, e) by {
                        let t = choose|t: int|
                            0 <= t < es0.len() && (#[trigger] es0[t]).0@ == k && es0[t].1
                                == e;
                        assert(ks[t] == es0[t].0@);
                        assert(self.entries@[t] == es0[t]);
                    }
                }
                Some(old_entry)
            },
            None => {
                let ghost ks = self.keys();
                let ghost es = self.entries@;
                self.entries.push((key, entry));
                assert(self.entries@ =~= es.push(pair));
                assert(self.keys() =~= ks.push(self.entries@.last().0@));
                assert(self.entries@.drop_last() =~= es);
                proof {
                    let n = ks.len() as int;
                    assert(self.keys()[n] == self.entries@[n].0@);
                    assert forall|a: int, b: int|
                        0 <= a < self.keys().len() && 0 <= b < self.keys().len() && a != b
                            implies self.keys()[a] != self.keys()[b] by {
                        if a == ks.len() {
                            assert(ks[b] == self.keys()[b]);
                        } else if b == ks.len() {
                            assert(ks[a] == self.keys()[a]);
                        }
                    }
                    assert(self.entries@[n].0@ == key_view);
                    assert forall|k: DestKeyView, e: DestEntry<T>|
                        k != key_view && (exists|t: int|
                            0 <= t < es0.len() && (#[trigger] es0[t]).0@ == k && es0[t].1
                                == e) implies #[trigger] self.runs(k, e) by {
                        let t = choose|t: int|
                            0 <= t < es0.len() && (#[trigger] es0[t]).0@ == k && es0[t].1
                                == e;
                        assert(self.entries@[t] == es0[t]);
                    }
                }
                None
            },
        }
    }

    /// Takes the destination keyed `key` out, handing it back so the relay
    /// can drain it. The others keep their order and contents.
    pub fn remove(&mut self, key: &DestKey) -> (r: Option<DestEntry<T>>)
        requires
            old(self).wf(),
        ensures
            final(self).wf(),
            !final(self).keys().contains(key@),
            old(self).keys().contains(key@) ==> {
                let i = old(self).keys().index_of(key@);
                &&& r == Some(old(self).entries@[i].1)
                &&& final(self).entries@ == old(self).entries@.remove(i)
            },
            !old(self).keys().contains(key@) ==> r is None && final(self).entries@ == old(
                self,
            ).entries@,
            forall|k: DestKeyView, e: DestEntry<T>|
                k != key@ && old(self).runs(k, e) ==> #[trigger] final(self).runs(k, e),
    {
        let ghost key_view = key@;
        let ghost es0 = self.entries@;
        match self.index_of(key) {
            Some(i) => {
                let ghost ks = self.keys();
                let ghost es = self.entries@;
                proof {
                    ks.index_of_first_ensures(key@);
                    assert(ks.index_of(key@) == i) by {
                        let k = ks.index_of(key@);
                        if k != i {
                            assert(ks[k] == key@);
                        }
                    }
                }
                let (_, v) = self.entries.remove(i);
                assert(v == es0[i as int].1);
                assert(self.keys() =~= ks.remove(i as int));
                proof {
                    assert forall|a: int, b: int|
                        0 <= a < self.keys().len() && 0 <= b < self.keys().len() && a != b
                            implies self.keys()[a] != self.keys()[b] by {
                        let a2 = if a < i {
                            a
                        } else {
                            a + 1
                        };
                        let b2 = if b < i {
                            b
                        } else {
                            b + 1
                        };
                        assert(self.keys()[a] == ks[a2]);
                        assert(self.keys()[b] == ks[b2]);
                    }
                    if self.keys().contains(key@) {
                        let a = choose|a: int| 0 <= a < self.keys().len() && self.keys()[a] == key@;
                        let a2 = if a < i {
                            a
                        } else {
                            a + 1
                        };
                        assert(ks[a2] == key@);
                    }
                    assert forall|k: DestKeyView, e: DestEntry<T>|
                        k != key_view && (exists|t: int|
                            0 <= t < es0.len() && (#[trigger] es0[t]).0@ == k && es0[t].1
                                == e) implies #[trigger] self.runs(k, e) by {
                        let t = choose|t: int|
                            0 <= t < es0.len() && (#[trigger] es0[t]).0@ == k && es0[t].1
                                == e;
                        assert(ks[t] == es0[t].0@);
                        assert(t != i);
                        let t2 = if t < i {
                            t
                        } else {
                            t - 1
                        };
                        assert(self.entries@[t2] == es0[t]);
                    }
                }
                Some(v)
            },
            None => None,
        }
    }

    /// Applies the in-place updates of a reload, in order, to the running
    /// destinations they name. Keys, order and handles do not change, and a
    /// destination no update names keeps its settings.
    pub fn apply_updates(&mut self, updates: &[DestUpdate])
        requires
            old(self).wf(),
        ensures
            final(self).wf(),
            final(self).keys() == old(self).keys(),
            final(self).entries@.len() == old(self).entries@.len(),
            forall|i: int|
                0 <= i < old(self).entries@.len() ==> (#[trigger] final(self).entries@[i]).1.handle
                    == old(self).entries@[i].1.handle && final(self).entries@[i].1.runtime
                    == runtime_after(
                    old(self).entries@[i].1.runtime,
                    old(self).keys()[i],
                    updates@,
                ),
    {
        let ghost ks = self.keys();
        let ghost es = self.entries@;
        let mut j: usize = 0;
        assert(updates@.take(0) =~= Seq::<DestUpdate>::empty());
        while j < updates.len()
            invariant
                j <= updates@.len(),
                ks.no_duplicates(),
                self.keys() == ks,
                self.entries@.len() == es.len(),
                forall|i: int|
                    0 <= i < es.len() ==> (#[trigger] self.entries@[i]).1.handle == es[i].1.handle
                        && self.entries@[i].1.runtime == runtime_after(
                        es[i].1.runtime,
                        ks[i],
                        updates@.take(j as int),
                    ),
            decreases updates@.len() - j,
        {
            let u = &updates[j];
            let ghost before = self.entries@;
            proof {
                assert(updates@.take(j + 1).drop_last() =~= updates@.take(j as int));
                assert(updates@.take(j + 1).last() == updates@[j as int]);
            }
            match self.index_of(&u.key) {
                Some(i) => {
                    let (k, mut e) = self.entries.remove(i);
                    if let Some(p) = u.policy {
                        e.runtime.set_policy(p);
                    }
                    if let Some(ms) = u.reconnect_delay_ms {
                        e.runtime.set_reconnect_delay_ms(ms);
                    }
                    match &u.rate_limit {
                        Some(rl) => e.runtime.set_private_limiter(rl.as_ref()),
                        None => {},
                    }
                    self.entries.insert(i, (k, e));
                    proof {
                        assert(self.keys() =~= ks);
                        assert forall|t: int| 0 <= t < es.len() implies (#[trigger] self.entries@[
                            t]).1.handle == es[t].1.handle && self.entries@[t].1.runtime
                            == runtime_after(es[t].1.runtime, ks[t], updates@.take(j + 1)) by {
                            if t != i {
                                assert(self.entries@[t] == before[t]);
                                assert(ks[t] != ks[i as int]);
                            }
                        }
                    }
                },
                None => {
                    proof {
                        assert forall|t: int| 0 <= t < es.len() implies (#[trigger] self.entries@[
                            t]).1.handle == es[t].1.handle && self.entries@[t].1.runtime
                            == runtime_after(es[t].1.runtime, ks[t], updates@.take(j + 1)) by {
                            assert(ks[t] != u.key@);
                        }
                    }
                },
            }
            j = j + 1;
        }
        assert(updates@.take(updates@.len() as int) =~= updates@);
    }
    /// The entries the source fans out to, in the order of `order` (the
    /// destination list in force): for each of its keys that runs, the
    /// index of that entry.
    pub fn view_order(&self, order: &[DestKey]) -> (r: Vec<usize>)
        requires
            self.wf(),
        ensures
            r@.map_values(|x: usize| x as int) == view_indices(self.keys(), keys_view(order@)),
            forall|j: int| 0 <= j < r@.len() ==> #[trigger] r@[j] < self.entries@.len(),
    {
        let ghost ks = self.keys();
        let mut out: Vec<usize> = Vec::new();
        let mut j: usize = 0;
        assert(keys_view(order@).take(0) =~= Seq::<DestKeyView>::empty());
        assert(out@.map_values(|x: usize| x as int) =~= Seq::<int>::empty());
        while j < order.len()
            invariant
                j <= order@.len(),
                ks == self.keys(),
                ks.no_duplicates(),
                out@.map_values(|x: usize| x as int) == view_indices(
                    ks,
                    keys_view(order@).take(j as int),
                ),
                forall|t: int| 0 <= t < out@.len() ==> #[trigger] out@[t] < self.entries@.len(),
            decreases order@.len() - j,
        {
            let ghost o = keys_view(order@);
            proof {
                assert(o.take(j + 1).drop_last() =~= o.take(j as int));
                assert(o.take(j + 1).last() == order@[j as int]@);
            }
            match self.index_of(&order[j]) {
                Some(i) => {
                    proof {
                        let k = order@[j as int]@;
                        ks.index_of_first_ensures(k);
                        assert(ks.index_of(k) == i) by {
                            let m = ks.index_of(k);
                            if m != i {
                                assert(ks[m] == k);
                            }
                        }
                    }
                    let ghost prev = out@;
                    out.push(i);
                    assert(out@.map_values(|x: usize| x as int) =~= prev.map_values(
                        |x: usize| x as int,
                    ).push(i as int));
                },
                None => {},
            }
            j = j + 1;
        }
        assert(keys_view(order@).take(order@.len() as int) =~= keys_view(order@));
        out
    }
}

/// With exactly one update naming `k`, the settings after all updates are
/// that update applied.
proof fn lemma_runtime_after_single(rt: DestRuntime, k: DestKeyView, us: Seq<DestUpdate>, j: int)
    requires
        0 <= j < us.len(),
        us[j].key@ == k,
        forall|t: int| 0 <= t < us.len() && t != j ==> #[trigger] us[t].key@ != k,
    ensures
        runtime_after(rt, k, us) == updated_runtime(rt, us[j]),
    decreases us.len(),
{
    let p = us.drop_last();
    if j == us.len() - 1 {
        assert forall|t: int| 0 <= t < p.len() implies #[trigger] p[t].key@ != k by {
            assert(p[t] == us[t]);
        }
        law_updates_for_others_change_nothing(rt, k, p);
    } else {
        assert forall|t: int| 0 <= t < p.len() && t != j implies #[trigger] p[t].key@ != k by {
            assert(p[t] == us[t]);
        }
        lemma_runtime_after_single(rt, k, p, j);
    }
}

/// The update a plan makes for a kept destination brings its settings
/// from those of its old entry to those of its new entry.
pub proof fn law_update_brings_settings_to_new_entry(u: DestUpdate, o: DestConfig, n: DestConfig)
    requires
        update_ok(u, o, n),
    ensures
        updated_runtime(runtime_of(o), u) == runtime_of(n),
{
}

/// What taking destinations out does, for entries with distinct keys: every
/// running destination whose key was to be taken out is handed back, and the
/// entries left are entries of the input, with distinct keys, whose keys are
/// exactly the running keys that were not to be taken out.
pub proof fn law_take_out_hands_back_the_removed<T>(
    es: Seq<(DestKey, DestEntry<T>)>,
    rm: Seq<DestKeyView>,
)
    requires
        entry_keys(es).no_duplicates(),
    ensures
        forall|t: int|
            0 <= t < es.len() && rm.contains(#[trigger] es[t].0@) ==> take_out(es, rm).1.contains(
                es[t].1,
            ),
        forall|k: DestKeyView| #[trigger]
            entry_keys(take_out(es, rm).0).contains(k) <==> (entry_keys(es).contains(k)
                && !rm.contains(k)),
        forall|i: int|
            0 <= i < take_out(es, rm).0.len() ==> es.contains(#[trigger] take_out(es, rm).0[i]),
        entry_keys(take_out(es, rm).0).no_duplicates(),
    decreases rm.len(),
{
    if rm.len() > 0 {
        let rm0 = rm.drop_last();
        let k0 = rm.last();
        law_take_out_hands_back_the_removed(es, rm0);
        let (rest0, out0) = take_out(es, rm0);
        let ks0 = entry_keys(rest0);
        let (rest, out) = take_out(es, rm);
        assert forall|k: DestKeyView| rm.contains(k) <==> (rm0.contains(k) || k == k0) by {
            if rm.contains(k) && k != k0 {
                let t = choose|t: int| 0 <= t < rm.len() && rm[t] == k;
                assert(rm0[t] == k);
            }
            if rm0.contains(k) {
                let t = choose|t: int| 0 <= t < rm0.len() && rm0[t] == k;
                assert(rm[t] == k);
            }
            assert(rm[rm.len() - 1] == k0);
        }
        if ks0.contains(k0) {
            let i = ks0.index_of(k0);
            ks0.index_of_first_ensures(k0);
            assert(rest == rest0.remove(i));
            assert(out == out0.push(rest0[i].1));
            assert(entry_keys(rest) =~= ks0.remove(i));
            let ti = choose|t: int| 0 <= t < es.len() && es[t] == rest0[i];
            assert(es[ti].0@ == k0) by {
                assert(ks0[i] == rest0[i].0@);
            }
            assert forall|t: int| 0 <= t < es.len() && rm.contains(#[trigger] es[t].0@) implies out.contains(
                es[t].1,
            ) by {
                if rm0.contains(es[t].0@) {
                    let j = choose|j: int| 0 <= j < out0.len() && out0[j] == es[t].1;
                    assert(out[j] == es[t].1);
                } else {
                    assert(es[t].0@ == k0);
                    assert(entry_keys(es)[t] == k0);
                    assert(entry_keys(es)[ti] == k0);
                    assert(t == ti);
                    assert(out[out0.len() as int] == es[t].1);
                }
            }
            assert forall|k: DestKeyView| #[trigger]
                entry_keys(rest).contains(k) <==> (entry_keys(es).contains(k) && !rm.contains(k)) by {
                assert(ks0.contains(k) == (entry_keys(es).contains(k) && !rm0.contains(k)));
                if entry_keys(rest).contains(k) {
                    let t = choose|t: int|
                        0 <= t < entry_keys(rest).len() && entry_keys(rest)[t] == k;
                    let t2 = if t < i {
                        t
                    } else {
                        t + 1
                    };
                    assert(ks0[t2] == k);
                    assert(t2 != i);
                }
                if ks0.contains(k) && k != k0 {
                    let t = choose|t: int| 0 <= t < ks0.len() && ks0[t] == k;
                    assert(t != i);
                    let t2 = if t < i {
                        t
                    } else {
                        t - 1
                    };
                    assert(entry_keys(rest)[t2] == k);
                }
            }
            assert forall|a: int| 0 <= a < rest.len() implies es.contains(
                #[trigger] rest[a],
            ) by {
                let a2 = if a < i {
                    a
                } else {
                    a + 1
                };
                assert(rest[a] == rest0[a2]);
                let t = choose|t: int| 0 <= t < es.len() && es[t] == rest0[a2];
            }
            assert forall|a: int, c: int|
                0 <= a < entry_keys(rest).len() && 0 <= c < entry_keys(rest).len() && a != c
                    implies entry_keys(rest)[a] != entry_keys(rest)[c] by {
                let a2 = if a < i {
                    a
                } else {
                    a + 1
                };
                let c2 = if c < i {
                    c
                } else {
                    c + 1
                };
                assert(entry_keys(rest)[a] == ks0[a2]);
                assert(entry_keys(rest)[c] == ks0[c2]);
            }

        } else {
            assert(rest == rest0);
            assert(out == out0);
            assert forall|a: int| 0 <= a < rest.len() implies es.contains(
                #[trigger] rest[a],
            ) by {
                assert(rest[a] == rest0[a]);
                let t = choose|t: int| 0 <= t < es.len() && es[t] == rest0[a];
            }
            assert forall|t: int| 0 <= t < es.len() && rm.contains(#[trigger] es[t].0@) implies out.contains(
                es[t].1,
            ) by {
                if !rm0.contains(es[t].0@) {
                    assert(entry_keys(es)[t] == es[t].0@);
                    assert(entry_keys(es).contains(k0));
                    assert(ks0.contains(k0) == (entry_keys(es).contains(k0) && !rm0.contains(k0)));
                }
            }
            assert forall|k: DestKeyView| #[trigger]
                entry_keys(rest).contains(k) <==> (entry_keys(es).contains(k) && !rm.contains(k)) by {
                assert(ks0.contains(k) == (entry_keys(es).contains(k) && !rm0.contains(k)));
                assert(ks0.contains(k0) == (entry_keys(es).contains(k0) && !rm0.contains(k0)));
            }
        }
    } else {
        let (rest, out) = take_out(es, rm);
        assert(rest == es);
        assert(out.len() == 0);
        assert forall|a: int| 0 <= a < rest.len() implies es.contains(#[trigger] rest[a]) by {
            assert(es[a] == rest[a]);
        }
    }
}

/// Hot reload keeps the running destinations in step with the
/// configuration. If the supervisor ran exactly the old list, then after
/// it follows the plan for the old and new lists:
/// - it runs exactly the new list, each destination with the settings of
///   its (last) new entry;
/// - a destination in both lists keeps the handle (queue and task) it had;
/// - a destination only in the new list runs with the handle made for it;
/// - the entries handed back for draining are those of the destinations
///   only in the old list, in the order the plan removes them.
pub proof fn law_reload_follows_new_list<T>(
    before: DestSupervisor<T>,
    after: DestSupervisor<T>,
    old_cfgs: Seq<DestConfig>,
    new_cfgs: Seq<DestConfig>,
    plan: DestReload,
    handles: Seq<T>,
    removed: Seq<DestEntry<T>>,
)
    requires
        before.built_from(old_cfgs),
        dest_reload_ok(old_cfgs, new_cfgs, plan),
        DestSupervisor::<T>::reload_result(before, after, plan, new_cfgs, handles, removed),
    ensures
        after.built_from(new_cfgs),
        forall|k: DestKeyView, e: DestEntry<T>|
            #[trigger] before.runs(k, e) && keys_of(new_cfgs).contains(k) ==> after.runs(
                k,
                DestEntry {
                    runtime: runtime_of(new_cfgs[last_index(keys_of(new_cfgs), k)]),
                    handle: e.handle,
                },
            ),
        forall|j: int|
            0 <= j < plan.spawn@.len() ==> after.runs(
                #[trigger] diff_spec(old_cfgs, new_cfgs).0[j],
                DestEntry {
                    runtime: runtime_of(new_cfgs[plan.spawn@[j] as int]),
                    handle: handles[j],
                },
            ),
        removed == take_out(before.entries@, diff_spec(old_cfgs, new_cfgs).1).1,
{
    let (added, removed_keys, kept) = diff_spec(old_cfgs, new_cfgs);
    let sk = spawn_keys(plan, new_cfgs);
    let rm = keys_view(plan.remove@);
    let ko = keys_of(old_cfgs);
    let kn = keys_of(new_cfgs);
    assert(sk.len() == added.len());
    assert forall|j: int| 0 <= j < sk.len() implies sk[j] == added[j] by {
        law_diff_partitions_keys(old_cfgs, new_cfgs, added[j]);
        assert(added.contains(added[j]));
        lemma_last_index(kn, added[j]);
        assert(kn[plan.spawn@[j] as int] == key_of(new_cfgs[plan.spawn@[j] as int]));
    }
    assert(sk =~= added);
    assert(rm =~= removed_keys);
    law_diff_partitions_keys(old_cfgs, new_cfgs, added[0]);
    assert(added.no_duplicates());
    assert forall|k: DestKeyView| #[trigger] after.keys().contains(k) <==> kn.contains(k) by {
        law_diff_partitions_keys(old_cfgs, new_cfgs, k);
        assert(before.keys().contains(k) == ko.contains(k));
    }
    // Kept destinations keep their handle and take their new settings.
    assert forall|k: DestKeyView, e: DestEntry<T>|
        #[trigger] before.runs(k, e) && kn.contains(k) implies after.runs(
        k,
        DestEntry { runtime: runtime_of(new_cfgs[last_index(kn, k)]), handle: e.handle },
    ) by {
        law_diff_partitions_keys(old_cfgs, new_cfgs, k);
        let t = choose|t: int|
            0 <= t < before.entries@.len() && (#[trigger] before.entries@[t]).0@ == k
                && before.entries@[t].1 == e;
        assert(before.keys()[t] == k);
        assert(before.keys().contains(k));
        assert(ko.contains(k));
        assert(kept.contains(k));
        let j = choose|j: int| 0 <= j < kept.len() && kept[j] == k;
        let u = plan.updates@[j];
        assert(u.key@ == kept[j]);
        assert forall|t2: int|
            0 <= t2 < plan.updates@.len() && t2 != j implies #[trigger] plan.updates@[t2].key@
            != k by {
            assert(plan.updates@[t2].key@ == kept[t2]);
        }
        let rt0 = runtime_of(old_cfgs[last_index(ko, k)]);
        assert(before.runs_with(k, rt0));
        let t0 = choose|t0: int|
            0 <= t0 < before.entries@.len() && (#[trigger] before.entries@[t0]).0@ == k
                && before.entries@[t0].1.runtime == rt0;
        assert(before.keys()[t0] == k);
        assert(t0 == t);
        assert(e.runtime == rt0);
        assert(!sk.contains(k));
        assert(!rm.contains(k));
        lemma_runtime_after_single(rt0, k, plan.updates@, j);
        law_update_brings_settings_to_new_entry(
            u,
            old_cfgs[last_index(ko, kept[j])],
            new_cfgs[u.new_index as int],
        );
    }
    // Started destinations run with the handle made for them.
    assert forall|j: int| 0 <= j < plan.spawn@.len() implies after.runs(
        #[trigger] added[j],
        DestEntry { runtime: runtime_of(new_cfgs[plan.spawn@[j] as int]), handle: handles[j] },
    ) by {
        assert(sk[j] == added[j]);
        assert forall|j2: int| j < j2 < sk.len() implies sk[j2] != sk[j] by {
            assert(added[j2] != added[j]);
        }
    }
    assert forall|k: DestKeyView| #[trigger] kn.contains(k) implies after.runs_with(
        k,
        runtime_of(new_cfgs[last_index(kn, k)]),
    ) by {
        law_diff_partitions_keys(old_cfgs, new_cfgs, k);
        if ko.contains(k) {
            let rt0 = runtime_of(old_cfgs[last_index(ko, k)]);
            assert(before.runs_with(k, rt0));
            let t = choose|t: int|
                0 <= t < before.entries@.len() && (#[trigger] before.entries@[t]).0@ == k
                    && before.entries@[t].1.runtime == rt0;
            let e = before.entries@[t].1;
            assert(before.runs(k, e));
            let e2 = DestEntry { runtime: runtime_of(new_cfgs[last_index(kn, k)]), handle: e.handle };
            assert(after.runs(k, e2));
            let t2 = choose|t2: int|
                0 <= t2 < after.entries@.len() && (#[trigger] after.entries@[t2]).0@ == k
                    && after.entries@[t2].1 == e2;
            assert(after.entries@[t2].1.runtime == e2.runtime);
        } else {
            assert(added.contains(k));
            let j = choose|j: int| 0 <= j < added.len() && added[j] == k;
            lemma_last_index(kn, k);
            let e2 = DestEntry {
                runtime: runtime_of(new_cfgs[plan.spawn@[j] as int]),
                handle: handles[j],
            };
            assert(after.runs(added[j], e2));
            let t2 = choose|t2: int|
                0 <= t2 < after.entries@.len() && (#[trigger] after.entries@[t2]).0@ == k
                    && after.entries@[t2].1 == e2;
            assert(after.entries@[t2].1.runtime == e2.runtime);
        }
    }
}

} // verus!

//! Peers of a destination in server mode. A TCP server destination keeps a
//! queue per connected peer; a UDP server destination registers any peer
//! that sends it a datagram. After each fan-out round the relay hands back
//! what happened to each peer, and the table and counters are updated.
use vstd::prelude::*;
use crate::stats::{counter_add, counter_dec, Stats};

verus! {

/// A socket address as plain integers: the IP (IPv4 in the low 32 bits),
/// the port, the family, and the IPv6 flow label and scope id. Two peers
/// are the same exactly when all of these match.
#[derive(Debug, Clone, Copy, PartialEq, Eq, Hash, Structural)]
pub struct PeerAddr {
    pub ip: u128,
    pub port: u16,
    pub v6: bool,
    pub flowinfo: u32,
    pub scope_id: u32,
}

/// Registered peers, each once, with a value per peer (the TCP server
/// keeps the peer's queue there).
#[derive(Debug)]
pub struct PeerTable<T> {
    pub entries: Vec<(PeerAddr, T)>,
}

impl<T> PeerTable<T> {
    /// The registered peers, in registration order.
    pub open spec fn keys(&self) -> Seq<PeerAddr> {
        self.entries@.map_values(|e: (PeerAddr, T)| e.0)
    }

    /// No peer is registered twice.
    pub open spec fn wf(&self) -> bool {
        self.keys().no_duplicates()
    }

    pub fn new() -> (r: PeerTable<T>)
        ensures
            r.wf(),
            r.keys().len() == 0,
    {
        let r = PeerTable { entries: Vec::new() };
        assert(r.keys() =~= Seq::<PeerAddr>::empty());
        r
    }

    pub fn len(&self) -> (r: usize)
        ensures
            r == self.keys().len(),
    {
        self.entries.len()
    }

    fn index_of(&self, peer: PeerAddr) -> (r: Option<usize>)
        ensures
            match r {
                Some(i) => i < self.keys().len() && self.keys()[i as int] == peer,
                None => !self.keys().contains(peer),
            },
    {
        let mut i: usize = 0;
        while i < self.entries.len()
            invariant
                i <= self.entries@.len(),
                forall|j: int| 0 <= j < i ==> self.keys()[j] != peer,
            decreases self.entries@.len() - i,
        {
            if self.entries[i].0 == peer {
                return Some(i);
            }
            i = i + 1;
        }
        None
    }

    /// Whether `peer` is registered.
    pub fn contains(&self, peer: PeerAddr) -> (r: bool)
        ensures
            r == self.keys().contains(peer),
    {
        self.index_of(peer).is_some()
    }

    /// The registered peers, in order.
    pub fn peers(&self) -> (r: Vec<PeerAddr>)
        ensures
            r@ == self.keys(),
    {
        let mut out: Vec<PeerAddr> = Vec::new();
        let mut i: usize = 0;
        while i < self.entries.len()
            invariant
                i <= self.entries@.len(),
                out@ == self.keys().take(i as int),
            decreases self.entries@.len() - i,
        {
            out.push(self.entries[i].0);
            assert(out@ =~= self.keys().take(i + 1));
            i = i + 1;
        }
        assert(self.keys().take(self.keys().len() as int) =~= self.keys());
        out
    }

    /// Registers `peer` with `value`. A peer already registered keeps its
    /// place and gets the new value; the value it had is handed back.
    pub fn insert(&mut self, peer: PeerAddr, value: T) -> (r: Option<T>)
        requires
            old(self).wf(),
        ensures
            final(self).wf(),
            old(self).keys().contains(peer) ==> {
                let i = old(self).keys().index_of(peer);
                &&& r == Some(old(self).entries@[i].1)
                &&& final(self).entries@ == old(self).entries@.update(i, (peer, value))
                &&& final(self).keys() == old(self).keys()
            },
            !old(self).keys().contains(peer) ==> r is None && final(self).entries@ == old(
                self,
            ).entries@.push((peer, value)) && final(self).keys() == old(self).keys().push(peer),
    {
        match self.index_of(peer) {
            Some(i) => {
                let ghost ks = self.keys();
                let ghost es = self.entries@;
                proof {
                    ks.index_of_first_ensures(peer);
                    assert(ks.index_of(peer) == i) by {
                        let k = ks.index_of(peer);
                        if k != i {
                            assert(ks[k] == peer);
                        }
                    }
                }
                let (_, old_value) = self.entries.remove(i);
                self.entries.insert(i, (peer, value));
                assert(self.entries@ =~= es.update(i as int, (peer, value)));
                assert(self.keys() =~= ks);
                Some(old_value)
            },
            None => {
                let ghost ks = self.keys();
                self.entries.push((peer, value));
                assert(self.keys() =~= ks.push(peer));
                proof {
                    assert forall|a: int, b: int|
                        0 <= a < self.keys().len() && 0 <= b < self.keys().len() && a != b
                            implies self.keys()[a] != self.keys()[b] by {
                        if a == ks.len() {
                            assert(ks[b] == self.keys()[b]);
                        } else if b == ks.len() {
                            assert(ks[a] == self.keys()[a]);
                        }
                    }
                }
                None
            },
        }
    }

    /// Unregisters `peer`, handing back its value when it was registered.
    pub fn remove(&mut self, peer: PeerAddr) -> (r: Option<T>)
        requires
            old(self).wf(),
        ensures
            final(self).wf(),
            old(self).keys().contains(peer) ==> {
                let i = old(self).keys().index_of(peer);
                &&& r == Some(old(self).entries@[i].1)
                &&& final(self).entries@ == old(self).entries@.remove(i)
                &&& final(self).keys() == old(self).keys().remove(i)
            },
            !old(self).keys().contains(peer) ==> r is None && final(self).entries@ == old(
                self,
            ).entries@,
            !final(self).keys().contains(peer),
    {
        match self.index_of(peer) {
            Some(i) => {
                let ghost ks = self.keys();
                proof {
                    ks.index_of_first_ensures(peer);
                    assert(ks.index_of(peer) == i) by {
                        let k = ks.index_of(peer);
                        if k != i {
                            assert(ks[k] == peer);
                        }
                    }
                }
                let (_, v) = self.entries.remove(i);
                assert(self.keys() =~= ks.remove(i as int));
                proof {
                    assert forall|a: int, b: int|
                        0 <= a < self.keys().len() && 0 <= b < self.keys().len() && a != b
                            implies self.keys()[a] != self.keys()[b] by {
                        let a2 = if a < i {
                            a
                        } else {
                            a + 1
                        };
                        let b2 = if b < i {
                            b
                        } else {
                            b + 1
                        };
                        assert(self.keys()[a] == ks[a2]);
                        assert(self.keys()[b] == ks[b2]);
                    }
                    if self.keys().contains(peer) {
                        let a = choose|a: int| 0 <= a < self.keys().len() && self.keys()[a] == peer;
                        let a2 = if a < i {
                            a
                        } else {
                            a + 1
                        };
                        assert(ks[a2] == peer);
                    }
                }
                Some(v)
            },
            None => None,
        }
    }
}

// ── UDP server destination ─────────────────────────────────────────

/// Registers a UDP peer that sent a datagram. A new peer counts as an
/// opened connection; a known one changes nothing.
pub fn register_udp_peer(table: &mut PeerTable<()>, peer: PeerAddr, stats: &mut Stats) -> (r:
    bool)
    requires
        old(table).wf(),
    ensures
        final(table).wf(),
        r == !old(table).keys().contains(peer),
        r ==> final(table).keys() == old(table).keys().push(peer) && *final(stats) == (Stats {
            active_connections: counter_add(old(stats).active_connections, 1),
            total_connections: counter_add(old(stats).total_connections, 1),
            ..*old(stats)
        }),
        !r ==> final(table).keys() == old(table).keys() && *final(stats) == *old(stats),
{
    let fresh = table.insert(peer, ()).is_none();
    if fresh {
        stats.conn_open();
    }
    fresh
}

/// How one send of a UDP fan-out round went: the bytes sent, or `None`
/// when the send failed.
pub type UdpSend = (PeerAddr, Option<u64>);

/// Counters after the sends of a round: bytes for each success, an error
/// for each failure.
pub open spec fn udp_sends_stats(s: Stats, outs: Seq<UdpSend>) -> Stats
    decreases outs.len(),
{
    if outs.len() == 0 {
        s
    } else {
        let p = udp_sends_stats(s, outs.drop_last());
        match outs.last().1 {
            Some(n) => Stats { bytes_sent: counter_add(p.bytes_sent, n), ..p },
            None => Stats { errors: counter_add(p.errors, 1), ..p },
        }
    }
}

/// Whether some send of the round succeeded.
pub open spec fn any_sent(outs: Seq<UdpSend>) -> bool {
    exists|i: int| 0 <= i < outs.len() && (#[trigger] outs[i]).1 is Some
}

/// The peers whose send failed, in order.
pub open spec fn failed_peers(outs: Seq<UdpSend>) -> Seq<PeerAddr>
    decreases outs.len(),
{
    if outs.len() == 0 {
        Seq::empty()
    } else if outs.last().1 is None {
        failed_peers(outs.drop_last()).push(outs.last().0)
    } else {
        failed_peers(outs.drop_last())
    }
}

/// Unregistering failed peers one by one: each that was still registered
/// counts as a closed connection.
pub open spec fn evict(keys: Seq<PeerAddr>, active: u64, failed: Seq<PeerAddr>) -> (
    Seq<PeerAddr>,
    u64,
)
    decreases failed.len(),
{
    if failed.len() == 0 {
        (keys, active)
    } else {
        let (k, a) = evict(keys, active, failed.drop_last());
        let f = failed.last();
        if k.contains(f) {
            (k.remove(k.index_of(f)), counter_dec(a))
        } else {
            (k, a)
        }
    }
}

/// Records a UDP fan-out round: bytes and errors per send, one relayed
/// message when any send succeeded, then every peer whose send failed is
/// unregistered (a closed connection when it was still registered).
pub fn finish_udp_round(table: &mut PeerTable<()>, outcomes: &[UdpSend], stats: &mut Stats)
    requires
        old(table).wf(),
    ensures
        final(table).wf(),
        ({
            let s1 = udp_sends_stats(*old(stats), outcomes@);
            let s2 = if any_sent(outcomes@) {
                Stats { messages_relayed: counter_add(s1.messages_relayed, 1), ..s1 }
            } else {
                s1
            };
            let (k, a) = evict(old(table).keys(), s2.active_connections, failed_peers(outcomes@));
            &&& final(table).keys() == k
            &&& *final(stats) == (Stats { active_connections: a, ..s2 })
        }),
{
    let mut sent_any = false;
    let mut failed: Vec<PeerAddr> = Vec::new();
    let ghost s0 = *stats;
    let mut i: usize = 0;
    while i < outcomes.len()
        invariant
            i <= outcomes@.len(),
            *stats == udp_sends_stats(s0, outcomes@.take(i as int)),
            sent_any == any_sent(outcomes@.take(i as int)),
            failed@ == failed_peers(outcomes@.take(i as int)),
        decreases outcomes@.len() - i,
    {
        let ghost pre = outcomes@.take(i as int);
        let ghost cur = outcomes@.take(i + 1);
        assert(cur.drop_last() =~= pre);
        assert(cur.last() == outcomes@[i as int]);
        let (peer, res) = outcomes[i];
        match res {
            Some(n) => {
                stats.add_sent(n);
                sent_any = true;
                assert(cur[i as int].1 is Some);
            },
            None => {
                stats.add_error();
                failed.push(peer);
                proof {
                    if any_sent(cur) {
                        let j = choose|j: int| 0 <= j < cur.len() && (#[trigger] cur[j]).1 is Some;
                        assert(j < i);
                        assert(pre[j] == cur[j]);
                    }
                }
            },
        }
        proof {
            if any_sent(pre) {
                let j = choose|j: int| 0 <= j < pre.len() && (#[trigger] pre[j]).1 is Some;
                assert(cur[j] == pre[j]);
            }
            if res is None && any_sent(cur) {
                let j = choose|j: int| 0 <= j < cur.len() && (#[trigger] cur[j]).1 is Some;
                assert(pre[j] == cur[j]);
            }
        }
        i = i + 1;
    }
    assert(outcomes@.take(outcomes@.len() as int) =~= outcomes@);
    if sent_any {
        stats.msg_relayed();
    }
    let ghost k0 = table.keys();
    let ghost a0 = stats.active_connections;
    let ghost s2 = *stats;
    let mut j: usize = 0;
    while j < failed.len()
        invariant
            table.wf(),
            j <= failed@.len(),
            (table.keys(), stats.active_connections) == evict(k0, a0, failed@.take(j as int)),
            *stats == (Stats { active_connections: stats.active_connections, ..s2 }),
        decreases failed@.len() - j,
    {
        assert(failed@.take(j + 1).drop_last() =~= failed@.take(j as int));
        if table.remove(failed[j]).is_some() {
            stats.conn_close();
        }
        j = j + 1;
    }
    assert(failed@.take(failed@.len() as int) =~= failed@);
}

/// While the active count equals the number of registered UDP peers,
/// registering a peer keeps it so (short of the counter wrapping).
pub proof fn law_udp_register_keeps_active_equal_to_peers(
    keys: Seq<PeerAddr>,
    s: Stats,
    peer: PeerAddr,
)
    requires
        s.active_connections == keys.len(),
        keys.len() < u64::MAX,
    ensures
        ({
            let k2 = if keys.contains(peer) {
                keys
            } else {
                keys.push(peer)
            };
            let a2 = if keys.contains(peer) {
                s.active_connections
            } else {
                counter_add(s.active_connections, 1)
            };
            a2 == k2.len()
        }),
{
}

/// Evicting failed peers keeps the active count equal to the number of
/// registered peers.
pub proof fn law_udp_evict_keeps_active_equal_to_peers(
    keys: Seq<PeerAddr>,
    active: u64,
    failed: Seq<PeerAddr>,
)
    requires
        active == keys.len(),
    ensures
        evict(keys, active, failed).1 == evict(keys, active, failed).0.len(),
    decreases failed.len(),
{
    if failed.len() > 0 {
        law_udp_evict_keeps_active_equal_to_peers(keys, active, failed.drop_last());
        let (k, a) = evict(keys, active, failed.drop_last());
        let f = failed.last();
        if k.contains(f) {
            k.index_of_first_ensures(f);
        }
    }
}

// ── TCP server destination ─────────────────────────────────────────

/// Registers an accepted TCP peer with its queue. A peer reconnecting from
/// the same address replaces its stale entry: the stale connection counts
/// as closed before the new one counts as opened. The stale queue is
/// handed back.
pub fn accept_tcp_peer<T>(table: &mut PeerTable<T>, peer: PeerAddr, queue: T, stats: &mut Stats) -> (r:
    Option<T>)
    requires
        old(table).wf(),
    ensures
        final(table).wf(),
        final(table).keys() == (if old(table).keys().contains(peer) {
            old(table).keys()
        } else {
            old(table).keys().push(peer)
        }),
        r is Some == old(table).keys().contains(peer),
        final(table).entries@ == (if old(table).keys().contains(peer) {
            old(table).entries@.update(old(table).keys().index_of(peer), (peer, queue))
        } else {
            old(table).entries@.push((peer, queue))
        }),
        old(table).keys().contains(peer) ==> r == Some(
            old(table).entries@[old(table).keys().index_of(peer)].1,
        ),
        *final(stats) == (Stats {
            active_connections: counter_add(
                if old(table).keys().contains(peer) {
                    counter_dec(old(stats).active_connections)
                } else {
                    old(stats).active_connections
                },
                1,
            ),
            total_connections: counter_add(old(stats).total_connections, 1),
            ..*old(stats)
        }),
{
    let stale = table.insert(peer, queue);
    if stale.is_some() {
        stats.conn_close();
    }
    stats.conn_open();
    stale
}

/// How handing a payload to one TCP peer's queue went.
#[derive(Debug, Clone, Copy, PartialEq, Eq, Structural)]
pub enum QueueSend {
    Queued,
    /// The peer is slow and its queue is full: the payload is dropped for it.
    Full,
    /// The peer's writer has gone (it already counted the closed connection).
    Closed,
}

pub type TcpSend = (PeerAddr, QueueSend);

/// Drops counted for full queues in a round.
pub open spec fn tcp_round_stats(s: Stats, outs: Seq<TcpSend>) -> Stats
    decreases outs.len(),
{
    if outs.len() == 0 {
        s
    } else {
        let p = tcp_round_stats(s, outs.drop_last());
        if outs.last().1 == QueueSend::Full {
            Stats {
                dropped_overflow: counter_add(p.dropped_overflow, 1),
                dropped_messages: counter_add(p.dropped_messages, 1),
                ..p
            }
        } else {
            p
        }
    }
}

/// Entries (peer and queue) left after unregistering the peers whose queue
/// was closed, one after the other.
pub open spec fn drop_closed_entries<T>(es: Seq<(PeerAddr, T)>, outs: Seq<TcpSend>) -> Seq<
    (PeerAddr, T),
>
    decreases outs.len(),
{
    if outs.len() == 0 {
        es
    } else {
        let e = drop_closed_entries(es, outs.drop_last());
        let ks = e.map_values(|x: (PeerAddr, T)| x.0);
        let (p, o) = outs.last();
        if o == QueueSend::Closed && ks.contains(p) {
            e.remove(ks.index_of(p))
        } else {
            e
        }
    }
}

/// Peers left after unregistering those whose queue was closed.
pub open spec fn drop_closed(keys: Seq<PeerAddr>, outs: Seq<TcpSend>) -> Seq<PeerAddr>
    decreases outs.len(),
{
    if outs.len() == 0 {
        keys
    } else {
        let k = drop_closed(keys, outs.drop_last());
        let (p, o) = outs.last();
        if o == QueueSend::Closed && k.contains(p) {
            k.remove(k.index_of(p))
        } else {
            k
        }
    }
}

/// Records a TCP fan-out round for one payload: one relayed message (the
/// payload counts once for the destination, whatever the number of peers),
/// a dropped (overflow) payload for each full queue, and every peer whose
/// queue was closed is unregistered.
pub fn finish_tcp_round<T>(table: &mut PeerTable<T>, outcomes: &[TcpSend], stats: &mut Stats)
    requires
        old(table).wf(),
        old(stats).wf(),
    ensures
        final(table).wf(),
        final(stats).wf(),
        *final(stats) == tcp_round_stats(
            Stats { messages_relayed: counter_add(old(stats).messages_relayed, 1), ..*old(stats) },
            outcomes@,
        ),
        final(table).keys() == drop_closed(old(table).keys(), outcomes@),
        final(table).entries@ == drop_closed_entries(old(table).entries@, outcomes@),
        forall|i: int|
            0 <= i < final(table).entries@.len() ==> old(table).entries@.contains(
                #[trigger] final(table).entries@[i],
            ),
{
    stats.msg_relayed();
    let ghost s0 = *stats;
    let ghost k0 = table.keys();
    let ghost e0 = table.entries@;
    let mut i: usize = 0;
    while i < outcomes.len()
        invariant
            i <= outcomes@.len(),
            table.wf(),
            stats.wf(),
            *stats == tcp_round_stats(s0, outcomes@.take(i as int)),
            table.keys() == drop_closed(k0, outcomes@.take(i as int)),
            table.entries@ == drop_closed_entries(e0, outcomes@.take(i as int)),
            forall|j: int|
                0 <= j < table.entries@.len() ==> e0.contains(#[trigger] table.entries@[j]),
        decreases outcomes@.len() - i,
    {
        let ghost cur = outcomes@.take(i + 1);
        assert(cur.drop_last() =~= outcomes@.take(i as int));
        assert(cur.last() == outcomes@[i as int]);
        let ghost before = table.entries@;
        assert(before.map_values(|x: (PeerAddr, T)| x.0) =~= table.keys());
        let (peer, res) = outcomes[i];
        match res {
            QueueSend::Queued => {},
            QueueSend::Full => {
                stats.add_dropped_overflow(1);
            },
            QueueSend::Closed => {
                let _ = table.remove(peer);
                proof {
                    assert forall|j: int|
                        0 <= j < table.entries@.len() implies e0.contains(
                            #[trigger] table.entries@[j],
                        ) by {
                        let ks = before.map_values(|x: (PeerAddr, T)| x.0);
                        if ks.contains(peer) {
                            let ki = ks.index_of(peer);
                            let j2 = if j < ki {
                                j
                            } else {
                                j + 1
                            };
                            assert(table.entries@[j] == before[j2]);
                        } else {
                            assert(table.entries@[j] == before[j]);
                        }
                    }
                }
            },
        }
        i = i + 1;
    }
    assert(outcomes@.take(outcomes@.len() as int) =~= outcomes@);
}

} // verus!

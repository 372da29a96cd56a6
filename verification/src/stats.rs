//! Per-endpoint statistics counters, their point-in-time snapshots, and the
//! Prometheus text rendering of a set of snapshots.
use vstd::prelude::*;
use crate::text::{
    append_quoted, decimal, decimal_string, label_quoted, lemma_occurs_around, lemma_occurs_trans,
    occurs_in, Quoting,
};

verus! {

/// 2^64: counters wrap around like the atomic counters they stand for.
pub open spec fn counter_modulus() -> int {
    0x1_0000_0000_0000_0000
}

/// `a + n` on a 64-bit counter that wraps around.
pub open spec fn counter_add(a: u64, n: u64) -> u64 {
    ((a + n) % counter_modulus()) as u64
}

/// `a - 1`, stopping at zero.
pub open spec fn counter_dec(a: u64) -> u64 {
    if a == 0 {
        0
    } else {
        (a - 1) as u64
    }
}

fn wrapping_inc(a: u64, n: u64) -> (r: u64)
    ensures
        r == counter_add(a, n),
{
    a.wrapping_add(n)
}

/// Point-in-time copy of one endpoint's counters. `dropped` is the sum of
/// the four per-reason `dropped_*` counters.
#[derive(Debug, Clone, PartialEq)]
pub struct StatsSnapshot {
    pub label: String,
    pub local_addr: String,
    pub peer_addr: String,
    pub snapshot_at: u64,
    pub uptime_s: u64,
    pub rx_bytes: u64,
    pub tx_bytes: u64,
    pub messages: u64,
    pub active_connections: u64,
    pub total_connections: u64,
    pub errors: u64,
    pub dropped: u64,
    pub dropped_overflow: u64,
    pub dropped_oversize: u64,
    pub dropped_validation: u64,
    pub dropped_write_error: u64,
}

/// Statistics counters for one named endpoint.
#[derive(Debug)]
pub struct Stats {
    pub label: String,
    pub local_addr: String,
    pub peer_addr: String,
    pub bytes_received: u64,
    pub bytes_sent: u64,
    pub messages_relayed: u64,
    pub active_connections: u64,
    pub total_connections: u64,
    pub errors: u64,
    /// Sum of the `dropped_*` counters, kept so a snapshot reads it directly.
    pub dropped_messages: u64,
    pub dropped_overflow: u64,
    pub dropped_oversize: u64,
    pub dropped_validation: u64,
    pub dropped_write_error: u64,
}

/// The total of the four per-reason drop counters, wrapped like a counter.
pub open spec fn dropped_sum(s: Stats) -> int {
    (s.dropped_overflow + s.dropped_oversize + s.dropped_validation + s.dropped_write_error)
        % counter_modulus()
}

impl Stats {
    /// The drop total always equals the sum of the per-reason counters.
    pub open spec fn wf(self) -> bool {
        self.dropped_messages == dropped_sum(self)
    }

    /// Fresh counters, all zero.
    pub fn new(label: &str, local_addr: &str, peer_addr: &str) -> (s: Stats)
        ensures
            s.wf(),
            s.label@ == label@,
            s.local_addr@ == local_addr@,
            s.peer_addr@ == peer_addr@,
            s.bytes_received == 0,
            s.bytes_sent == 0,
            s.messages_relayed == 0,
            s.active_connections == 0,
            s.total_connections == 0,
            s.errors == 0,
            s.dropped_messages == 0,
            s.dropped_overflow == 0,
            s.dropped_oversize == 0,
            s.dropped_validation == 0,
            s.dropped_write_error == 0,
    {
        Stats {
            label: String::from_str(label),
            local_addr: String::from_str(local_addr),
            peer_addr: String::from_str(peer_addr),
            bytes_received: 0,
            bytes_sent: 0,
            messages_relayed: 0,
            active_connections: 0,
            total_connections: 0,
            errors: 0,
            dropped_messages: 0,
            dropped_overflow: 0,
            dropped_oversize: 0,
            dropped_validation: 0,
            dropped_write_error: 0,
        }
    }

    pub fn add_received(&mut self, n: u64)
        ensures
            *final(self) == (Stats {
                bytes_received: counter_add(old(self).bytes_received, n),
                ..*old(self)
            }),
            *final(self) == stats_step(*old(self), StatsOp::Received(n)),
    {
        self.bytes_received = wrapping_inc(self.bytes_received, n);
    }

    pub fn add_sent(&mut self, n: u64)
        ensures
            *final(self) == (Stats { bytes_sent: counter_add(old(self).bytes_sent, n), ..*old(self) }),
            *final(self) == stats_step(*old(self), StatsOp::Sent(n)),
    {
        self.bytes_sent = wrapping_inc(self.bytes_sent, n);
    }

    pub fn msg_relayed(&mut self)
        ensures
            *final(self) == (Stats {
                messages_relayed: counter_add(old(self).messages_relayed, 1),
                ..*old(self)
            }),
            *final(self) == stats_step(*old(self), StatsOp::Relayed),
    {
        self.messages_relayed = wrapping_inc(self.messages_relayed, 1);
    }

    pub fn add_error(&mut self)
        ensures
            *final(self) == (Stats { errors: counter_add(old(self).errors, 1), ..*old(self) }),
            *final(self) == stats_step(*old(self), StatsOp::Error),
    {
        self.errors = wrapping_inc(self.errors, 1);
    }

    /// Queue-full drops.
    pub fn add_dropped_overflow(&mut self, n: u64)
        requires
            old(self).wf(),
        ensures
            final(self).wf(),
            *final(self) == (Stats {
                dropped_overflow: counter_add(old(self).dropped_overflow, n),
                dropped_messages: counter_add(old(self).dropped_messages, n),
                ..*old(self)
            }),
            *final(self) == stats_step(*old(self), StatsOp::DroppedOverflow(n)),
    {
        proof {
            lemma_sum_step(
                self.dropped_overflow,
                (self.dropped_oversize + self.dropped_validation + self.dropped_write_error) as int,
                n,
            );
        }
        self.dropped_overflow = wrapping_inc(self.dropped_overflow, n);
        self.dropped_messages = wrapping_inc(self.dropped_messages, n);
    }

    /// Payloads larger than `general.max_payload_size`.
    pub fn add_dropped_oversize(&mut self, n: u64)
        requires
            old(self).wf(),
        ensures
            final(self).wf(),
            *final(self) == (Stats {
                dropped_oversize: counter_add(old(self).dropped_oversize, n),
                dropped_messages: counter_add(old(self).dropped_messages, n),
                ..*old(self)
            }),
            *final(self) == stats_step(*old(self), StatsOp::DroppedOversize(n)),
    {
        proof {
            lemma_sum_step(
                self.dropped_oversize,
                (self.dropped_overflow + self.dropped_validation + self.dropped_write_error) as int,
                n,
            );
        }
        self.dropped_oversize = wrapping_inc(self.dropped_oversize, n);
        self.dropped_messages = wrapping_inc(self.dropped_messages, n);
    }

    /// Payloads a transform pipeline refused.
    pub fn add_dropped_validation(&mut self, n: u64)
        requires
            old(self).wf(),
        ensures
            final(self).wf(),
            *final(self) == (Stats {
                dropped_validation: counter_add(old(self).dropped_validation, n),
                dropped_messages: counter_add(old(self).dropped_messages, n),
                ..*old(self)
            }),
            *final(self) == stats_step(*old(self), StatsOp::DroppedValidation(n)),
    {
        proof {
            lemma_sum_step(
                self.dropped_validation,
                (self.dropped_overflow + self.dropped_oversize + self.dropped_write_error) as int,
                n,
            );
        }
        self.dropped_validation = wrapping_inc(self.dropped_validation, n);
        self.dropped_messages = wrapping_inc(self.dropped_messages, n);
    }

    /// Writes to a destination that failed before the packet was delivered.
    pub fn add_dropped_write_error(&mut self, n: u64)
        requires
            old(self).wf(),
        ensures
            final(self).wf(),
            *final(self) == (Stats {
                dropped_write_error: counter_add(old(self).dropped_write_error, n),
                dropped_messages: counter_add(old(self).dropped_messages, n),
                ..*old(self)
            }),
            *final(self) == stats_step(*old(self), StatsOp::DroppedWriteError(n)),
    {
        proof {
            lemma_sum_step(
                self.dropped_write_error,
                (self.dropped_overflow + self.dropped_oversize + self.dropped_validation) as int,
                n,
            );
        }
        self.dropped_write_error = wrapping_inc(self.dropped_write_error, n);
        self.dropped_messages = wrapping_inc(self.dropped_messages, n);
    }

    /// A connection opened: one more active and one more in total.
    pub fn conn_open(&mut self)
        ensures
            *final(self) == (Stats {
                active_connections: counter_add(old(self).active_connections, 1),
                total_connections: counter_add(old(self).total_connections, 1),
                ..*old(self)
            }),
            *final(self) == stats_step(*old(self), StatsOp::ConnOpen),
    {
        self.active_connections = wrapping_inc(self.active_connections, 1);
        self.total_connections = wrapping_inc(self.total_connections, 1);
    }

    /// A connection closed: one fewer active, never below zero.
    pub fn conn_close(&mut self)
        ensures
            *final(self) == (Stats {
                active_connections: counter_dec(old(self).active_connections),
                ..*old(self)
            }),
            *final(self) == stats_step(*old(self), StatsOp::ConnClose),
    {
        self.active_connections = self.active_connections.saturating_sub(1);
    }

    /// Copies the counters, stamped with the wall-clock time `snapshot_at`
    /// (seconds since the Unix epoch) and the endpoint's uptime in seconds.
    pub fn snapshot(&self, snapshot_at: u64, uptime_s: u64) -> (r: StatsSnapshot)
        ensures
            r == snapshot_of(*self, snapshot_at, uptime_s),
    {
        StatsSnapshot {
            label: self.label.clone(),
            local_addr: self.local_addr.clone(),
            peer_addr: self.peer_addr.clone(),
            snapshot_at,
            uptime_s,
            rx_bytes: self.bytes_received,
            tx_bytes: self.bytes_sent,
            messages: self.messages_relayed,
            active_connections: self.active_connections,
            total_connections: self.total_connections,
            errors: self.errors,
            dropped: self.dropped_messages,
            dropped_overflow: self.dropped_overflow,
            dropped_oversize: self.dropped_oversize,
            dropped_validation: self.dropped_validation,
            dropped_write_error: self.dropped_write_error,
        }
    }
}

/// The snapshot a set of counters gives at a given time.
pub open spec fn snapshot_of(s: Stats, snapshot_at: u64, uptime_s: u64) -> StatsSnapshot {
    StatsSnapshot {
        label: s.label,
        local_addr: s.local_addr,
        peer_addr: s.peer_addr,
        snapshot_at,
        uptime_s,
        rx_bytes: s.bytes_received,
        tx_bytes: s.bytes_sent,
        messages: s.messages_relayed,
        active_connections: s.active_connections,
        total_connections: s.total_connections,
        errors: s.errors,
        dropped: s.dropped_messages,
        dropped_overflow: s.dropped_overflow,
        dropped_oversize: s.dropped_oversize,
        dropped_validation: s.dropped_validation,
        dropped_write_error: s.dropped_write_error,
    }
}

/// One call that changes a set of counters.
pub enum StatsOp {
    Received(u64),
    Sent(u64),
    Relayed,
    Error,
    DroppedOverflow(u64),
    DroppedOversize(u64),
    DroppedValidation(u64),
    DroppedWriteError(u64),
    ConnOpen,
    ConnClose,
}

/// The counters after one call.
pub open spec fn stats_step(s: Stats, op: StatsOp) -> Stats {
    match op {
        StatsOp::Received(n) => Stats { bytes_received: counter_add(s.bytes_received, n), ..s },
        StatsOp::Sent(n) => Stats { bytes_sent: counter_add(s.bytes_sent, n), ..s },
        StatsOp::Relayed => Stats { messages_relayed: counter_add(s.messages_relayed, 1), ..s },
        StatsOp::Error => Stats { errors: counter_add(s.errors, 1), ..s },
        StatsOp::DroppedOverflow(n) => Stats {
            dropped_overflow: counter_add(s.dropped_overflow, n),
            dropped_messages: counter_add(s.dropped_messages, n),
            ..s
        },
        StatsOp::DroppedOversize(n) => Stats {
            dropped_oversize: counter_add(s.dropped_oversize, n),
            dropped_messages: counter_add(s.dropped_messages, n),
            ..s
        },
        StatsOp::DroppedValidation(n) => Stats {
            dropped_validation: counter_add(s.dropped_validation, n),
            dropped_messages: counter_add(s.dropped_messages, n),
            ..s
        },
        StatsOp::DroppedWriteError(n) => Stats {
            dropped_write_error: counter_add(s.dropped_write_error, n),
            dropped_messages: counter_add(s.dropped_messages, n),
            ..s
        },
        StatsOp::ConnOpen => Stats {
            active_connections: counter_add(s.active_connections, 1),
            total_connections: counter_add(s.total_connections, 1),
            ..s
        },
        StatsOp::ConnClose => Stats { active_connections: counter_dec(s.active_connections), ..s },
    }
}

/// The counters after a sequence of calls, in order.
pub open spec fn stats_after(s: Stats, ops: Seq<StatsOp>) -> Stats
    decreases ops.len(),
{
    if ops.len() == 0 {
        s
    } else {
        stats_step(stats_after(s, ops.drop_last()), ops.last())
    }
}

/// How many of the calls open a connection.
pub open spec fn opens(ops: Seq<StatsOp>) -> nat
    decreases ops.len(),
{
    if ops.len() == 0 {
        0
    } else {
        opens(ops.drop_last()) + if ops.last() is ConnOpen {
            1nat
        } else {
            0nat
        }
    }
}

/// Whatever calls follow, the total connection count grows by exactly the
/// number of opens, and open connections never outnumber the total, as
/// long as the total does not wrap around. For fresh counters (both zero)
/// the total is the number of `conn_open` calls.
pub proof fn law_connection_counts(s: Stats, ops: Seq<StatsOp>)
    requires
        s.active_connections <= s.total_connections,
        s.total_connections + opens(ops) <= u64::MAX,
    ensures
        stats_after(s, ops).total_connections == s.total_connections + opens(ops),
        stats_after(s, ops).active_connections <= stats_after(s, ops).total_connections,
    decreases ops.len(),
{
    if ops.len() > 0 {
        law_connection_counts(s, ops.drop_last());
    }
}

/// Open connections never outnumber the connections ever opened: opening
/// one keeps it so (until the total counter would wrap), and closing one
/// keeps it so.
pub proof fn law_active_never_exceeds_total(s: Stats)
    requires
        s.active_connections <= s.total_connections,
    ensures
        s.total_connections < u64::MAX ==> counter_add(s.active_connections, 1) <= counter_add(
            s.total_connections,
            1,
        ),
        counter_dec(s.active_connections) <= s.total_connections,
{
}

/// Adding `n` to one term of a wrapped sum adds `n` to the wrapped sum.
proof fn lemma_sum_step(x: u64, rest: int, n: u64)
    requires
        rest >= 0,
    ensures
        (counter_add(x, n) + rest) % counter_modulus() == counter_add(
            ((x + rest) % counter_modulus()) as u64,
            n,
        ),
{
    let m = counter_modulus();
    vstd::arithmetic::div_mod::lemma_add_mod_noop_right(rest, x + n, m);
    vstd::arithmetic::div_mod::lemma_add_mod_noop_right(n as int, x + rest, m);
    assert(rest + (x + n) == n + (x + rest));
}

} // verus!

verus! {

// ── Prometheus text exposition ─────────────────────────────────────

/// The metric families `render_prometheus` emits, in output order.
#[derive(Debug, Clone, Copy, PartialEq, Eq, Structural)]
pub enum Metric {
    RxBytes,
    TxBytes,
    Messages,
    Errors,
    Dropped,
    DroppedOverflow,
    DroppedOversize,
    DroppedValidation,
    DroppedWriteError,
    ConnectionsOpened,
    ActiveConnections,
    Uptime,
}

pub open spec fn metric_order() -> Seq<Metric> {
    seq![
        Metric::RxBytes,
        Metric::TxBytes,
        Metric::Messages,
        Metric::Errors,
        Metric::Dropped,
        Metric::DroppedOverflow,
        Metric::DroppedOversize,
        Metric::DroppedValidation,
        Metric::DroppedWriteError,
        Metric::ConnectionsOpened,
        Metric::ActiveConnections,
        Metric::Uptime,
    ]
}

pub open spec fn metric_name_spec(m: Metric) -> Seq<char> {
    match m {
        Metric::RxBytes => "nexthop_rx_bytes_total"@,
        Metric::TxBytes => "nexthop_tx_bytes_total"@,
        Metric::Messages => "nexthop_messages_total"@,
        Metric::Errors => "nexthop_errors_total"@,
        Metric::Dropped => "nexthop_dropped_total"@,
        Metric::DroppedOverflow => "nexthop_dropped_overflow_total"@,
        Metric::DroppedOversize => "nexthop_dropped_oversize_total"@,
        Metric::DroppedValidation => "nexthop_dropped_validation_total"@,
        Metric::DroppedWriteError => "nexthop_dropped_write_error_total"@,
        Metric::ConnectionsOpened => "nexthop_connections_opened_total"@,
        Metric::ActiveConnections => "nexthop_active_connections"@,
        Metric::Uptime => "nexthop_uptime_seconds"@,
    }
}

pub open spec fn metric_help_spec(m: Metric) -> Seq<char> {
    match m {
        Metric::RxBytes => "Total bytes received per endpoint since process start."@,
        Metric::TxBytes => "Total bytes transmitted per endpoint since process start."@,
        Metric::Messages => "Total messages relayed per endpoint since process start."@,
        Metric::Errors => "Total endpoint errors since process start."@,
        Metric::Dropped => "Total packets dropped per endpoint since process start (sum of dropped_* by reason)."@,
        Metric::DroppedOverflow => "Packets dropped because the destination queue was full (drop_newest policy)."@,
        Metric::DroppedOversize => "Packets dropped because they exceeded general.max_payload_size."@,
        Metric::DroppedValidation => "Packets dropped due to validation failure (reserved)."@,
        Metric::DroppedWriteError => "Packets dropped because writing to the destination failed."@,
        Metric::ConnectionsOpened => "Total connections opened against this endpoint since process start."@,
        Metric::ActiveConnections => "Currently open connections to this endpoint."@,
        Metric::Uptime => "Seconds since the endpoint's task started."@,
    }
}

/// Gauges may go down; every other family is a monotonic counter.
pub open spec fn metric_is_gauge(m: Metric) -> bool {
    m == Metric::ActiveConnections || m == Metric::Uptime
}

/// The snapshot field a metric family reports.
pub open spec fn metric_value(m: Metric, s: StatsSnapshot) -> u64 {
    match m {
        Metric::RxBytes => s.rx_bytes,
        Metric::TxBytes => s.tx_bytes,
        Metric::Messages => s.messages,
        Metric::Errors => s.errors,
        Metric::Dropped => s.dropped,
        Metric::DroppedOverflow => s.dropped_overflow,
        Metric::DroppedOversize => s.dropped_oversize,
        Metric::DroppedValidation => s.dropped_validation,
        Metric::DroppedWriteError => s.dropped_write_error,
        Metric::ConnectionsOpened => s.total_connections,
        Metric::ActiveConnections => s.active_connections,
        Metric::Uptime => s.uptime_s,
    }
}

/// `# HELP` and `# TYPE` lines of a family.
pub open spec fn metric_header(m: Metric) -> Seq<char> {
    "# HELP "@ + metric_name_spec(m) + " "@ + metric_help_spec(m) + "\n"@ + "# TYPE "@
        + metric_name_spec(m) + (if metric_is_gauge(m) {
        " gauge\n"@
    } else {
        " counter\n"@
    })
}

/// One sample line: `name{endpoint="label"} value`.
pub open spec fn metric_row(m: Metric, s: StatsSnapshot) -> Seq<char> {
    metric_name_spec(m) + "{endpoint="@ + label_quoted(s.label@) + "} "@ + decimal(
        metric_value(m, s) as nat,
    ) + "\n"@
}

pub open spec fn metric_rows(m: Metric, snaps: Seq<StatsSnapshot>) -> Seq<char>
    decreases snaps.len(),
{
    if snaps.len() == 0 {
        Seq::empty()
    } else {
        metric_rows(m, snaps.drop_last()) + metric_row(m, snaps.last())
    }
}

pub open spec fn metric_block(m: Metric, snaps: Seq<StatsSnapshot>) -> Seq<char> {
    metric_header(m) + metric_rows(m, snaps)
}

pub open spec fn metric_blocks(ms: Seq<Metric>, snaps: Seq<StatsSnapshot>) -> Seq<char>
    decreases ms.len(),
{
    if ms.len() == 0 {
        Seq::empty()
    } else {
        metric_blocks(ms.drop_last(), snaps) + metric_block(ms.last(), snaps)
    }
}

/// The exposition text: every family in `metric_order`, each with its
/// header and one row per snapshot, in the snapshots' order.
pub open spec fn prometheus_text(snaps: Seq<StatsSnapshot>) -> Seq<char> {
    metric_blocks(metric_order(), snaps)
}

/// A Prometheus sample line for `value` under `name`, labelled with the
/// endpoint `label`: `name{endpoint="label"} value`.
pub open spec fn sample_line(name: Seq<char>, label: Seq<char>, value: u64) -> Seq<char> {
    name + "{endpoint="@ + label_quoted(label) + "} "@ + decimal(value as nat) + "\n"@
}

/// Every snapshot's row of a family appears among the family's rows.
pub proof fn lemma_rows_hold_each(m: Metric, snaps: Seq<StatsSnapshot>, i: int)
    requires
        0 <= i < snaps.len(),
    ensures
        occurs_in(metric_row(m, snaps[i]), metric_rows(m, snaps)),
    decreases snaps.len(),
{
    let e = Seq::<char>::empty();
    let front = metric_rows(m, snaps.drop_last());
    let last = metric_row(m, snaps.last());
    if i == snaps.len() - 1 {
        assert(front + last + e =~= metric_rows(m, snaps));
        lemma_occurs_around(front, last, e);
    } else {
        lemma_rows_hold_each(m, snaps.drop_last(), i);
        assert(snaps.drop_last()[i] == snaps[i]);
        assert(e + front + last =~= metric_rows(m, snaps));
        lemma_occurs_around(e, front, last);
        lemma_occurs_trans(metric_row(m, snaps[i]), front, metric_rows(m, snaps));
    }
}

/// Every family's block appears among the blocks.
pub proof fn lemma_blocks_hold_each(ms: Seq<Metric>, snaps: Seq<StatsSnapshot>, j: int)
    requires
        0 <= j < ms.len(),
    ensures
        occurs_in(metric_block(ms[j], snaps), metric_blocks(ms, snaps)),
    decreases ms.len(),
{
    let e = Seq::<char>::empty();
    let front = metric_blocks(ms.drop_last(), snaps);
    let last = metric_block(ms.last(), snaps);
    if j == ms.len() - 1 {
        assert(front + last + e =~= metric_blocks(ms, snaps));
        lemma_occurs_around(front, last, e);
    } else {
        lemma_blocks_hold_each(ms.drop_last(), snaps, j);
        assert(ms.drop_last()[j] == ms[j]);
        assert(e + front + last =~= metric_blocks(ms, snaps));
        lemma_occurs_around(e, front, last);
        lemma_occurs_trans(metric_block(ms[j], snaps), front, metric_blocks(ms, snaps));
    }
}

/// The row of family `metric_order()[j]` for snapshot `i` is in the text.
pub proof fn lemma_text_holds_row(snaps: Seq<StatsSnapshot>, i: int, j: int)
    requires
        0 <= i < snaps.len(),
        0 <= j < metric_order().len(),
    ensures
        occurs_in(metric_row(metric_order()[j], snaps[i]), prometheus_text(snaps)),
{
    let m = metric_order()[j];
    let e = Seq::<char>::empty();
    lemma_rows_hold_each(m, snaps, i);
    assert(metric_header(m) + metric_rows(m, snaps) + e =~= metric_block(m, snaps));
    lemma_occurs_around(metric_header(m), metric_rows(m, snaps), e);
    lemma_occurs_trans(metric_row(m, snaps[i]), metric_rows(m, snaps), metric_block(m, snaps));
    lemma_blocks_hold_each(metric_order(), snaps, j);
    lemma_occurs_trans(metric_row(m, snaps[i]), metric_block(m, snaps), prometheus_text(snaps));
}

/// The metrics text reports every counter of every snapshot under its own
/// metric name: for each snapshot there is a line
/// `name{endpoint="label"} value` for each family, where the value is the
/// snapshot's own field for that family (bytes received and sent, messages,
/// errors, drops in total and by reason, connections opened, connections
/// open now, and uptime).
pub proof fn law_metrics_text_reports_each_snapshot(snaps: Seq<StatsSnapshot>, i: int)
    requires
        0 <= i < snaps.len(),
    ensures
        occurs_in(
            sample_line("nexthop_rx_bytes_total"@, snaps[i].label@, snaps[i].rx_bytes),
            prometheus_text(snaps),
        ),
        occurs_in(
            sample_line("nexthop_tx_bytes_total"@, snaps[i].label@, snaps[i].tx_bytes),
            prometheus_text(snaps),
        ),
        occurs_in(
            sample_line("nexthop_messages_total"@, snaps[i].label@, snaps[i].messages),
            prometheus_text(snaps),
        ),
        occurs_in(
            sample_line("nexthop_errors_total"@, snaps[i].label@, snaps[i].errors),
            prometheus_text(snaps),
        ),
        occurs_in(
            sample_line("nexthop_dropped_total"@, snaps[i].label@, snaps[i].dropped),
            prometheus_text(snaps),
        ),
        occurs_in(
            sample_line(
                "nexthop_dropped_overflow_total"@,
                snaps[i].label@,
                snaps[i].dropped_overflow,
            ),
            prometheus_text(snaps),
        ),
        occurs_in(
            sample_line(
                "nexthop_dropped_oversize_total"@,
                snaps[i].label@,
                snaps[i].dropped_oversize,
            ),
            prometheus_text(snaps),
        ),
        occurs_in(
            sample_line(
                "nexthop_dropped_validation_total"@,
                snaps[i].label@,
                snaps[i].dropped_validation,
            ),
            prometheus_text(snaps),
        ),
        occurs_in(
            sample_line(
                "nexthop_dropped_write_error_total"@,
                snaps[i].label@,
                snaps[i].dropped_write_error,
            ),
            prometheus_text(snaps),
        ),
        occurs_in(
            sample_line(
                "nexthop_connections_opened_total"@,
                snaps[i].label@,
                snaps[i].total_connections,
            ),
            prometheus_text(snaps),
        ),
        occurs_in(
            sample_line(
                "nexthop_active_connections"@,
                snaps[i].label@,
                snaps[i].active_connections,
            ),
            prometheus_text(snaps),
        ),
        occurs_in(
            sample_line("nexthop_uptime_seconds"@, snaps[i].label@, snaps[i].uptime_s),
            prometheus_text(snaps),
        ),
{
    lemma_text_holds_row(snaps, i, 0);
    lemma_text_holds_row(snaps, i, 1);
    lemma_text_holds_row(snaps, i, 2);
    lemma_text_holds_row(snaps, i, 3);
    lemma_text_holds_row(snaps, i, 4);
    lemma_text_holds_row(snaps, i, 5);
    lemma_text_holds_row(snaps, i, 6);
    lemma_text_holds_row(snaps, i, 7);
    lemma_text_holds_row(snaps, i, 8);
    lemma_text_holds_row(snaps, i, 9);
    lemma_text_holds_row(snaps, i, 10);
    lemma_text_holds_row(snaps, i, 11);
    let s = snaps[i];
    assert(metric_row(metric_order()[0], s) == sample_line("nexthop_rx_bytes_total"@, s.label@, s.rx_bytes));
    assert(metric_row(metric_order()[1], s) == sample_line("nexthop_tx_bytes_total"@, s.label@, s.tx_bytes));
    assert(metric_row(metric_order()[2], s) == sample_line("nexthop_messages_total"@, s.label@, s.messages));
    assert(metric_row(metric_order()[3], s) == sample_line("nexthop_errors_total"@, s.label@, s.errors));
    assert(metric_row(metric_order()[4], s) == sample_line("nexthop_dropped_total"@, s.label@, s.dropped));
    assert(metric_row(metric_order()[5], s) == sample_line("nexthop_dropped_overflow_total"@, s.label@, s.dropped_overflow));
    assert(metric_row(metric_order()[6], s) == sample_line("nexthop_dropped_oversize_total"@, s.label@, s.dropped_oversize));
    assert(metric_row(metric_order()[7], s) == sample_line("nexthop_dropped_validation_total"@, s.label@, s.dropped_validation));
    assert(metric_row(metric_order()[8], s) == sample_line("nexthop_dropped_write_error_total"@, s.label@, s.dropped_write_error));
    assert(metric_row(metric_order()[9], s) == sample_line("nexthop_connections_opened_total"@, s.label@, s.total_connections));
    assert(metric_row(metric_order()[10], s) == sample_line("nexthop_active_connections"@, s.label@, s.active_connections));
    assert(metric_row(metric_order()[11], s) == sample_line("nexthop_uptime_seconds"@, s.label@, s.uptime_s));
}

fn metric_name(m: Metric) -> (r: &'static str)
    ensures
        r@ == metric_name_spec(m),
{
    match m {
        Metric::RxBytes => "nexthop_rx_bytes_total",
        Metric::TxBytes => "nexthop_tx_bytes_total",
        Metric::Messages => "nexthop_messages_total",
        Metric::Errors => "nexthop_errors_total",
        Metric::Dropped => "nexthop_dropped_total",
        Metric::DroppedOverflow => "nexthop_dropped_overflow_total",
        Metric::DroppedOversize => "nexthop_dropped_oversize_total",
        Metric::DroppedValidation => "nexthop_dropped_validation_total",
        Metric::DroppedWriteError => "nexthop_dropped_write_error_total",
        Metric::ConnectionsOpened => "nexthop_connections_opened_total",
        Metric::ActiveConnections => "nexthop_active_connections",
        Metric::Uptime => "nexthop_uptime_seconds",
    }
}

fn metric_help(m: Metric) -> (r: &'static str)
    ensures
        r@ == metric_help_spec(m),
{
    match m {
        Metric::RxBytes => "Total bytes received per endpoint since process start.",
        Metric::TxBytes => "Total bytes transmitted per endpoint since process start.",
        Metric::Messages => "Total messages relayed per endpoint since process start.",
        Metric::Errors => "Total endpoint errors since process start.",
        Metric::Dropped => "Total packets dropped per endpoint since process start (sum of dropped_* by reason).",
        Metric::DroppedOverflow => "Packets dropped because the destination queue was full (drop_newest policy).",
        Metric::DroppedOversize => "Packets dropped because they exceeded general.max_payload_size.",
        Metric::DroppedValidation => "Packets dropped due to validation failure (reserved).",
        Metric::DroppedWriteError => "Packets dropped because writing to the destination failed.",
        Metric::ConnectionsOpened => "Total connections opened against this endpoint since process start.",
        Metric::ActiveConnections => "Currently open connections to this endpoint.",
        Metric::Uptime => "Seconds since the endpoint's task started.",
    }
}

fn metric_field(m: Metric, s: &StatsSnapshot) -> (r: u64)
    ensures
        r == metric_value(m, *s),
{
    match m {
        Metric::RxBytes => s.rx_bytes,
        Metric::TxBytes => s.tx_bytes,
        Metric::Messages => s.messages,
        Metric::Errors => s.errors,
        Metric::Dropped => s.dropped,
        Metric::DroppedOverflow => s.dropped_overflow,
        Metric::DroppedOversize => s.dropped_oversize,
        Metric::DroppedValidation => s.dropped_validation,
        Metric::DroppedWriteError => s.dropped_write_error,
        Metric::ConnectionsOpened => s.total_connections,
        Metric::ActiveConnections => s.active_connections,
        Metric::Uptime => s.uptime_s,
    }
}

fn all_metrics() -> (r: Vec<Metric>)
    ensures
        r@ == metric_order(),
{
    let r = vec![
        Metric::RxBytes,
        Metric::TxBytes,
        Metric::Messages,
        Metric::Errors,
        Metric::Dropped,
        Metric::DroppedOverflow,
        Metric::DroppedOversize,
        Metric::DroppedValidation,
        Metric::DroppedWriteError,
        Metric::ConnectionsOpened,
        Metric::ActiveConnections,
        Metric::Uptime,
    ];
    assert(r@ =~= metric_order());
    r
}

fn write_header(out: &mut String, m: Metric)
    ensures
        final(out)@ == old(out)@ + metric_header(m),
{
    let ghost start = out@;
    let name = metric_name(m);
    out.append("# HELP ");
    out.append(name);
    out.append(" ");
    out.append(metric_help(m));
    out.append("\n");
    out.append("# TYPE ");
    out.append(name);
    let is_gauge = match m {
        Metric::ActiveConnections => true,
        Metric::Uptime => true,
        _ => false,
    };
    if is_gauge {
        out.append(" gauge\n");
    } else {
        out.append(" counter\n");
    }
    assert(out@ =~= start + metric_header(m));
}

fn write_row(out: &mut String, m: Metric, s: &StatsSnapshot)
    ensures
        final(out)@ == old(out)@ + metric_row(m, *s),
{
    let ghost start = out@;
    out.append(metric_name(m));
    out.append("{endpoint=");
    append_quoted(out, s.label.as_str(), Quoting::PromLabel);
    out.append("} ");
    let v = decimal_string(metric_field(m, s) as u128);
    out.append(v.as_str());
    out.append("\n");
    assert(out@ =~= start + metric_row(m, *s));
}

/// Quotes and escapes a label value for the Prometheus text format:
/// backslash, double quote and newline are escaped.
pub fn escape_label(s: &str) -> (r: String)
    ensures
        r@ == label_quoted(s@),
{
    let mut out = String::new();
    append_quoted(&mut out, s, Quoting::PromLabel);
    out
}

/// Renders a set of snapshots as Prometheus text exposition
/// (`text/plain; version=0.0.4`): for each metric family, its `# HELP` and
/// `# TYPE` lines and one sample per snapshot labelled by endpoint.
pub fn render_prometheus(snapshots: &[StatsSnapshot]) -> (r: String)
    ensures
        r@ == prometheus_text(snapshots@),
{
    let metrics = all_metrics();
    let mut out = String::new();
    let mut k: usize = 0;
    while k < metrics.len()
        invariant
            metrics@ == metric_order(),
            k <= metrics@.len(),
            out@ == metric_blocks(metrics@.take(k as int), snapshots@),
        decreases metrics@.len() - k,
    {
        let m = metrics[k];
        let ghost block_start = out@;
        write_header(&mut out, m);
        let ghost rows_start = out@;
        let mut i: usize = 0;
        while i < snapshots.len()
            invariant
                i <= snapshots@.len(),
                out@ == rows_start + metric_rows(m, snapshots@.take(i as int)),
            decreases snapshots@.len() - i,
        {
            write_row(&mut out, m, &snapshots[i]);
            proof {
                assert(snapshots@.take(i + 1).drop_last() =~= snapshots@.take(i as int));
                crate::text::lemma_append_step(
                    rows_start,
                    metric_rows(m, snapshots@.take(i as int)),
                    metric_row(m, snapshots@[i as int]),
                );
            }
            i = i + 1;
        }
        proof {
            assert(snapshots@.take(snapshots@.len() as int) =~= snapshots@);
            assert(metrics@.take(k + 1).drop_last() =~= metrics@.take(k as int));
            crate::text::lemma_append_step(
                block_start,
                metric_header(m),
                metric_rows(m, snapshots@),
            );
        }
        k = k + 1;
    }
    assert(metrics@.take(metrics@.len() as int) =~= metrics@);
    out
}

} // verus!

use nexthop::stats::{escape_label, render_prometheus, Stats, StatsSnapshot};

fn snap(s: &Stats) -> StatsSnapshot {
    s.snapshot(1_700_000_000, 0)
}

#[test]
fn counters_are_atomic() {
    let mut s = Stats::new("test", "", "");
    s.add_received(100);
    s.add_received(200);
    assert_eq!(s.bytes_received, 300);
}

#[test]
fn conn_open_close() {
    let mut s = Stats::new("test", "", "");
    s.conn_open();
    s.conn_open();
    assert_eq!(s.active_connections, 2);
    assert_eq!(s.total_connections, 2);
    s.conn_close();
    assert_eq!(s.active_connections, 1);
    assert_eq!(s.total_connections, 2);
}

#[test]
fn conn_close_saturates_at_zero() {
    let mut s = Stats::new("test", "", "");
    s.conn_open();
    s.conn_close();
    s.conn_close();
    assert_eq!(s.active_connections, 0);
}

#[test]
fn snapshot_label_matches() {
    let s = Stats::new("my-endpoint", "", "");
    assert_eq!(snap(&s).label, "my-endpoint");
}

#[test]
fn snapshot_captures_all_counters() {
    let mut s = Stats::new("test", "", "");
    s.add_received(100);
    s.add_sent(200);
    s.msg_relayed();
    s.msg_relayed();
    s.add_error();
    s.add_dropped_overflow(3);
    s.conn_open();
    let snap = snap(&s);
    assert_eq!(snap.rx_bytes, 100);
    assert_eq!(snap.tx_bytes, 200);
    assert_eq!(snap.messages, 2);
    assert_eq!(snap.errors, 1);
    assert_eq!(snap.dropped, 3);
    assert_eq!(snap.active_connections, 1);
    assert_eq!(snap.total_connections, 1);
}

#[test]
fn snapshot_at_is_nonzero() {
    let s = Stats::new("test", "", "");
    assert!(snap(&s).snapshot_at > 0);
}

#[test]
fn active_never_exceeds_total() {
    let mut s = Stats::new("test", "", "");
    for _ in 0..5 {
        s.conn_open();
    }
    for _ in 0..3 {
        s.conn_close();
    }
    let snap = snap(&s);
    assert_eq!(snap.active_connections, 2);
    assert_eq!(snap.total_connections, 5);
    assert!(snap.active_connections <= snap.total_connections);
}

#[test]
fn snapshot_includes_local_and_peer_addr() {
    let s = Stats::new("ep", "0.0.0.0:5000", "192.168.1.10:4567");
    let snap = snap(&s);
    assert_eq!(snap.local_addr, "0.0.0.0:5000");
    assert_eq!(snap.peer_addr, "192.168.1.10:4567");
}

#[test]
fn add_sent_accumulates() {
    let mut s = Stats::new("t", "", "");
    s.add_sent(100);
    s.add_sent(50);
    assert_eq!(s.bytes_sent, 150);
}

#[test]
fn msg_relayed_increments() {
    let mut s = Stats::new("t", "", "");
    s.msg_relayed();
    s.msg_relayed();
    s.msg_relayed();
    assert_eq!(s.messages_relayed, 3);
}

#[test]
fn add_dropped_accumulates() {
    let mut s = Stats::new("t", "", "");
    s.add_dropped_overflow(5);
    s.add_dropped_overflow(3);
    assert_eq!(s.dropped_messages, 8);
}

#[test]
fn add_error_accumulates() {
    let mut s = Stats::new("t", "", "");
    s.add_error();
    s.add_error();
    assert_eq!(s.errors, 2);
}

#[test]
fn snapshot_tx_bytes_matches_add_sent() {
    let mut s = Stats::new("t", "", "");
    s.add_sent(999);
    assert_eq!(snap(&s).tx_bytes, 999);
}

#[test]
fn snapshot_dropped_matches_add_dropped() {
    let mut s = Stats::new("t", "", "");
    s.add_dropped_overflow(7);
    assert_eq!(snap(&s).dropped, 7);
}

#[test]
fn log_report_does_not_panic() {
    let mut s = Stats::new("test", "0.0.0.0:1234", "(any)");
    s.add_received(100);
    s.add_sent(50);
    s.msg_relayed();
    s.conn_open();
    let report = s.snapshot(1, 3);
    assert_eq!(report.rx_bytes, 100);
    assert_eq!(report.uptime_s, 3);
}

#[test]
fn snapshot_uptime_is_nonnegative() {
    let s = Stats::new("t", "", "");
    assert_eq!(snap(&s).uptime_s, 0);
}

#[test]
fn add_dropped_overflow_increments_sub_and_total() {
    let mut s = Stats::new("t", "", "");
    s.add_dropped_overflow(3);
    assert_eq!(s.dropped_overflow, 3);
    assert_eq!(s.dropped_messages, 3);
}

#[test]
fn add_dropped_oversize_increments_sub_and_total() {
    let mut s = Stats::new("t", "", "");
    s.add_dropped_oversize(2);
    assert_eq!(s.dropped_oversize, 2);
    assert_eq!(s.dropped_messages, 2);
}

#[test]
fn add_dropped_validation_increments_sub_and_total() {
    let mut s = Stats::new("t", "", "");
    s.add_dropped_validation(4);
    assert_eq!(s.dropped_validation, 4);
    assert_eq!(s.dropped_messages, 4);
}

#[test]
fn add_dropped_write_error_increments_sub_and_total() {
    let mut s = Stats::new("t", "", "");
    s.add_dropped_write_error(5);
    assert_eq!(s.dropped_write_error, 5);
    assert_eq!(s.dropped_messages, 5);
}

#[test]
fn snapshot_dropped_equals_sum_of_breakdown() {
    let mut s = Stats::new("t", "", "");
    s.add_dropped_overflow(1);
    s.add_dropped_oversize(2);
    s.add_dropped_validation(3);
    s.add_dropped_write_error(4);
    let snap = snap(&s);
    assert_eq!(snap.dropped_overflow, 1);
    assert_eq!(snap.dropped_oversize, 2);
    assert_eq!(snap.dropped_validation, 3);
    assert_eq!(snap.dropped_write_error, 4);
    assert_eq!(snap.dropped, 10, "dropped should equal sum of sub-counters");
}

#[test]
fn prometheus_includes_per_reason_dropped_metrics() {
    let mut s = Stats::new("dest(b)", "", "");
    s.add_dropped_overflow(5);
    s.add_dropped_oversize(1);
    s.add_dropped_write_error(2);
    let body = render_prometheus(&[snap(&s)]);
    for (name, val) in [
        ("nexthop_dropped_overflow_total", 5),
        ("nexthop_dropped_oversize_total", 1),
        ("nexthop_dropped_validation_total", 0),
        ("nexthop_dropped_write_error_total", 2),
    ] {
        let expected = format!("{name}{{endpoint=\"dest(b)\"}} {val}");
        assert!(body.contains(&expected), "missing {expected}; body=\n{body}");
    }
    assert!(
        body.contains("nexthop_dropped_total{endpoint=\"dest(b)\"} 8"),
        "body=\n{body}"
    );
}

fn snap_with(label: &str, rx: u64, tx: u64, dropped: u64, active: u64) -> StatsSnapshot {
    let mut s = Stats::new(label, "", "");
    s.add_received(rx);
    s.add_sent(tx);
    s.add_dropped_overflow(dropped);
    for _ in 0..active {
        s.conn_open();
    }
    snap(&s)
}

#[test]
fn prometheus_emits_help_and_type_for_each_metric() {
    let body = render_prometheus(&[snap_with("source(ingest)", 100, 0, 0, 1)]);
    for name in [
        "nexthop_rx_bytes_total",
        "nexthop_tx_bytes_total",
        "nexthop_messages_total",
        "nexthop_errors_total",
        "nexthop_dropped_total",
        "nexthop_connections_opened_total",
        "nexthop_active_connections",
        "nexthop_uptime_seconds",
    ] {
        assert!(
            body.contains(&format!("# HELP {name} ")),
            "missing HELP for {name}; body=\n{body}"
        );
        assert!(
            body.contains(&format!("# TYPE {name} ")),
            "missing TYPE for {name}; body=\n{body}"
        );
    }
}

#[test]
fn prometheus_counter_values_match_snapshot() {
    let body = render_prometheus(&[snap_with("dest(tcp-backend)", 0, 4096000, 3, 1)]);
    assert!(
        body.contains("nexthop_tx_bytes_total{endpoint=\"dest(tcp-backend)\"} 4096000"),
        "body=\n{body}"
    );
    assert!(
        body.contains("nexthop_dropped_total{endpoint=\"dest(tcp-backend)\"} 3"),
        "body=\n{body}"
    );
    assert!(
        body.contains("nexthop_active_connections{endpoint=\"dest(tcp-backend)\"} 1"),
        "body=\n{body}"
    );
}

#[test]
fn prometheus_emits_one_row_per_endpoint_per_metric() {
    let body = render_prometheus(&[
        snap_with("source(a)", 0, 0, 0, 0),
        snap_with("dest(b)", 0, 0, 0, 0),
        snap_with("dest(c)", 0, 0, 0, 0),
    ]);
    let rx_rows = body
        .lines()
        .filter(|l| l.starts_with("nexthop_rx_bytes_total{"))
        .count();
    assert_eq!(rx_rows, 3, "body=\n{body}");
}

#[test]
fn prometheus_escapes_label_quotes_and_backslashes() {
    let snap = snap_with(r#"weird"name\with\backslashes"#, 1, 0, 0, 0);
    let body = render_prometheus(&[snap]);
    assert!(
        body.contains(r#"endpoint="weird\"name\\with\\backslashes""#),
        "body=\n{body}"
    );
}

#[test]
fn prometheus_empty_snapshots_emits_only_help_and_type() {
    let body = render_prometheus(&[]);
    assert!(
        body.contains("# HELP nexthop_rx_bytes_total"),
        "body=\n{body}"
    );
    assert!(
        !body.contains("nexthop_rx_bytes_total{"),
        "should have no rows; body=\n{body}"
    );
}

// ── Further cases ──────────────────────────────────────────────────

#[test]
fn escape_label_escapes_newline_and_keeps_other_characters() {
    assert_eq!(escape_label("a\nb"), "\"a\\nb\"");
    assert_eq!(escape_label("tab\there"), "\"tab\there\"");
    assert_eq!(escape_label(""), "\"\"");
}

#[test]
fn prometheus_full_text_for_one_endpoint() {
    let mut s = Stats::new("x", "", "");
    s.add_received(1);
    let body = render_prometheus(&[s.snapshot(5, 9)]);
    let first_lines: Vec<&str> = body.lines().take(3).collect();
    assert_eq!(
        first_lines,
        vec![
            "# HELP nexthop_rx_bytes_total Total bytes received per endpoint since process start.",
            "# TYPE nexthop_rx_bytes_total counter",
            "nexthop_rx_bytes_total{endpoint=\"x\"} 1",
        ]
    );
    assert!(body.contains("nexthop_uptime_seconds{endpoint=\"x\"} 9\n"));
    assert!(body.ends_with('\n'));
}

#[test]
fn counters_wrap_at_u64_max() {
    let mut s = Stats::new("t", "", "");
    s.add_received(u64::MAX);
    s.add_received(2);
    assert_eq!(s.bytes_received, 1);
}

#[test]
fn drop_total_wraps_with_its_parts() {
    let mut s = Stats::new("t", "", "");
    s.add_dropped_overflow(u64::MAX);
    s.add_dropped_oversize(3);
    assert_eq!(s.dropped_messages, 2);
    assert_eq!(snap(&s).dropped, 2);
}

fn unescape(body: &str) -> String {
    let mut out = String::new();
    let mut it = body.chars();
    while let Some(c) = it.next() {
        if c == '\\' {
            match it.next() {
                Some('n') => out.push('\n'),
                Some('r') => out.push('\r'),
                Some(d) => out.push(d),
                None => out.push('\\'),
            }
        } else {
            out.push(c);
        }
    }
    out
}

#[test]
fn escaped_label_reads_back_and_stays_on_one_line() {
    let raw = "dest(\"a\\b\"\nc\r)";
    let quoted = escape_label(raw);
    assert!(quoted.starts_with('"') && quoted.ends_with('"'));
    let body = &quoted[1..quoted.len() - 1];
    assert!(!body.contains('\n'));
    assert_eq!(unescape(body), raw);
}

#[test]
fn total_connections_count_the_opens() {
    let mut s = Stats::new("t", "", "");
    let script = [true, true, false, true, false, false, false, true];
    for open in script {
        if open {
            s.conn_open();
        } else {
            s.conn_close();
        }
        s.add_received(1);
        assert!(s.active_connections <= s.total_connections);
    }
    assert_eq!(s.total_connections, 4);
    assert_eq!(s.active_connections, 1);
}

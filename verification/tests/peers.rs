use nexthop::relay::peers::{
    accept_tcp_peer, finish_tcp_round, finish_udp_round, register_udp_peer, PeerAddr, PeerTable,
    QueueSend,
};
use nexthop::stats::Stats;

fn peer(port: u16) -> PeerAddr {
    PeerAddr { ip: 0x7f00_0001, port, v6: false, flowinfo: 0, scope_id: 0 }
}

#[test]
fn udp_peers_register_once() {
    let mut table: PeerTable<()> = PeerTable::new();
    let mut stats = Stats::new("d", "", "");
    assert!(register_udp_peer(&mut table, peer(1), &mut stats));
    assert!(!register_udp_peer(&mut table, peer(1), &mut stats));
    assert!(register_udp_peer(&mut table, peer(2), &mut stats));
    assert_eq!(table.peers(), vec![peer(1), peer(2)]);
    assert_eq!(stats.active_connections, 2);
    assert_eq!(stats.total_connections, 2);
}

#[test]
fn udp_round_counts_and_evicts_failed_peers() {
    let mut table: PeerTable<()> = PeerTable::new();
    let mut stats = Stats::new("d", "", "");
    register_udp_peer(&mut table, peer(1), &mut stats);
    register_udp_peer(&mut table, peer(2), &mut stats);
    finish_udp_round(&mut table, &[(peer(1), Some(10)), (peer(2), None)], &mut stats);
    assert_eq!(table.peers(), vec![peer(1)]);
    assert_eq!(stats.bytes_sent, 10);
    assert_eq!(stats.errors, 1);
    assert_eq!(stats.messages_relayed, 1);
    assert_eq!(stats.active_connections, 1);
}

#[test]
fn udp_round_with_no_success_relays_nothing() {
    let mut table: PeerTable<()> = PeerTable::new();
    let mut stats = Stats::new("d", "", "");
    register_udp_peer(&mut table, peer(1), &mut stats);
    finish_udp_round(&mut table, &[(peer(1), None)], &mut stats);
    assert_eq!(stats.messages_relayed, 0);
    assert!(!table.contains(peer(1)));
    assert_eq!(stats.active_connections, 0);
}

#[test]
fn tcp_reconnect_replaces_stale_peer() {
    let mut table: PeerTable<u32> = PeerTable::new();
    let mut stats = Stats::new("d", "", "");
    assert_eq!(accept_tcp_peer(&mut table, peer(1), 7, &mut stats), None);
    assert_eq!(accept_tcp_peer(&mut table, peer(1), 8, &mut stats), Some(7));
    assert_eq!(table.len(), 1);
    assert_eq!(table.entries, vec![(peer(1), 8)]);
    assert_eq!(stats.active_connections, 1);
    assert_eq!(stats.total_connections, 2);
}

#[test]
fn tcp_round_drops_for_full_queues_and_forgets_closed_ones() {
    let mut table: PeerTable<u32> = PeerTable::new();
    let mut stats = Stats::new("d", "", "");
    accept_tcp_peer(&mut table, peer(1), 1, &mut stats);
    accept_tcp_peer(&mut table, peer(2), 2, &mut stats);
    accept_tcp_peer(&mut table, peer(3), 3, &mut stats);
    finish_tcp_round(
        &mut table,
        &[(peer(1), QueueSend::Queued), (peer(2), QueueSend::Full), (peer(3), QueueSend::Closed)],
        &mut stats,
    );
    assert_eq!(table.peers(), vec![peer(1), peer(2)]);
    assert_eq!(table.entries, vec![(peer(1), 1), (peer(2), 2)]);
    assert_eq!(stats.messages_relayed, 1);
    assert_eq!(stats.dropped_overflow, 1);
    assert_eq!(stats.dropped_messages, 1);
}

#[test]
fn tcp_reconnect_keeps_other_peers_queues_in_place() {
    let mut table: PeerTable<u32> = PeerTable::new();
    let mut stats = Stats::new("d", "", "");
    accept_tcp_peer(&mut table, peer(1), 1, &mut stats);
    accept_tcp_peer(&mut table, peer(2), 2, &mut stats);
    assert_eq!(accept_tcp_peer(&mut table, peer(1), 9, &mut stats), Some(1));
    assert_eq!(table.entries, vec![(peer(1), 9), (peer(2), 2)]);
    finish_tcp_round(&mut table, &[(peer(1), QueueSend::Closed)], &mut stats);
    assert_eq!(table.entries, vec![(peer(2), 2)]);
}

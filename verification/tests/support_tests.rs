use pos_chain::encoding::{
    append_bytes, append_decimal, append_le, append_text, bytes_equal, bytes_less, text_equal, text_less,
};
use pos_chain::mempool::{build_dedup_input, build_order_input, Mempool, RejectReason};
use pos_chain::metrics::{BlockMetric, Metrics, PeerMetric, TxMetric};
use pos_chain::sorting::{stable_order, SortKey};
use pos_chain::storage::{parse_slot, slot_key, ACCOUNTS_TREE, BLOCKS_TREE, LATEST_SLOT_KEY, METADATA_TREE};
use pos_chain::types::Transaction;

#[test]
fn buffers_are_appended_to() {
    let mut out = vec![1u8];
    append_bytes(&mut out, &[2, 3]);
    append_text(&mut out, "é:");
    append_decimal(&mut out, 0);
    append_decimal(&mut out, 1_905);
    append_decimal(&mut out, u64::MAX);
    append_le(&mut out, 0x0102_0304_0506_0708);
    let mut expected = vec![1u8, 2, 3, 0xc3, 0xa9, b':', b'0'];
    expected.extend_from_slice(b"1905");
    expected.extend_from_slice(b"18446744073709551615");
    expected.extend_from_slice(&[8, 7, 6, 5, 4, 3, 2, 1]);
    assert_eq!(out, expected);
}

#[test]
fn bytes_compare_as_in_a_dictionary() {
    assert!(bytes_less(b"", b"a"));
    assert!(!bytes_less(b"", b""));
    assert!(!bytes_less(b"a", b""));
    assert!(bytes_less(b"a", b"ab"));
    assert!(bytes_less(b"ab", b"b"));
    assert!(!bytes_less(b"b", b"ab"));
    assert!(!bytes_less(b"ab", b"ab"));
    assert!(bytes_less(&[1, 255], &[2, 0]));
    assert!(bytes_equal(b"ab", b"ab"));
    assert!(!bytes_equal(b"ab", b"abc"));
    assert!(!bytes_equal(b"ab", b"ac"));
    assert!(text_equal("V1", "V1"));
    assert!(!text_equal("V1", "V2"));
    assert!(text_less("V1", "V10"));
    assert!(text_less("V10", "V2"));
    assert_eq!(text_less("a", "b"), "a" < "b");
}

#[test]
fn stable_order_sorts_by_rank_then_position() {
    assert_eq!(stable_order(&vec![30u64, 10, 20, 10, 30]), vec![1, 3, 2, 0, 4]);
    assert_eq!(stable_order(&Vec::<u64>::new()), Vec::<usize>::new());
    assert_eq!(stable_order(&vec![5u64]), vec![0]);
    let key = |first: u8, last: u8| {
        let mut k = vec![0u8; 32];
        k[0] = first;
        k[31] = last;
        k
    };
    let keys = vec![key(1, 0), key(0, 9), key(0, 1), key(1, 0), key(0, 1)];
    assert_eq!(stable_order(&keys), vec![2, 4, 1, 0, 3]);
    assert!(key(0, 1).ranks_below(&key(0, 2)));
    assert!(!key(0, 2).ranks_below(&key(0, 2)));
    assert!(3u64.ranks_below(&4));
    assert!(!4u64.ranks_below(&4));
}

fn tx() -> Transaction {
    Transaction {
        from: "alice".to_string(),
        from_pubkey: "pk".to_string(),
        to: "bob".to_string(),
        amount: 100,
        nonce: 0,
        fee: 1000,
        signature: "sig1".to_string(),
    }
}

#[test]
fn key_inputs_are_joined_text() {
    assert_eq!(build_dedup_input(&tx()), b"alice|bob|100|0|1000|sig1".to_vec());
    assert_eq!(build_order_input(&tx()), b"alice:bob:100".to_vec());
}

#[test]
fn submission_says_why_it_fails() {
    let mut mempool = Mempool::new();
    assert_eq!(mempool.submit(tx()), Ok(()));
    assert_eq!(mempool.submit(tx()), Err(RejectReason::Duplicate));
    for i in 1..10_000u64 {
        let mut other = tx();
        other.nonce = i;
        assert_eq!(mempool.submit(other), Ok(()));
    }
    let mut fresh = tx();
    fresh.nonce = 10_000;
    assert_eq!(mempool.submit(fresh), Err(RejectReason::Full));
    assert_eq!(mempool.submit(tx()), Err(RejectReason::Full));
    assert_eq!(mempool.len(), 10_000);
}

#[test]
fn slots_are_stored_big_endian() {
    assert_eq!(slot_key(0), vec![0; 8]);
    assert_eq!(slot_key(1), vec![0, 0, 0, 0, 0, 0, 0, 1]);
    assert_eq!(slot_key(0x0102_0304_0506_0708), vec![1, 2, 3, 4, 5, 6, 7, 8]);
    assert_eq!(slot_key(u64::MAX), vec![255; 8]);
    for slot in [0, 1, 255, 256, 22_050_000, u64::MAX - 1, u64::MAX] {
        assert_eq!(parse_slot(&slot_key(slot)), Some(slot));
        assert_eq!(slot_key(slot), slot.to_be_bytes().to_vec());
    }
    assert_eq!(parse_slot(&[0; 7]), None);
    assert_eq!(parse_slot(&[0; 9]), None);
    assert_eq!(parse_slot(&[]), None);
    assert!(slot_key(255) < slot_key(256));
    assert_eq!((BLOCKS_TREE, ACCOUNTS_TREE, METADATA_TREE, LATEST_SLOT_KEY), ("blocks", "accounts", "metadata", "latest_slot"));
}

fn block_metric(slot: u64, tx_count: usize, time_ms: u64) -> BlockMetric {
    BlockMetric {
        slot,
        hash: format!("hash{}", slot),
        producer: "V1".to_string(),
        tx_count,
        time_ms,
        timestamp: slot * 10,
    }
}

#[test]
fn histories_are_bounded() {
    let mut metrics = Metrics::new_at(100);
    for slot in 0..130 {
        metrics.record_block(block_metric(slot, 2, 1_000));
    }
    for i in 0..60u64 {
        metrics.record_transaction(TxMetric {
            from: "a".to_string(),
            to: "b".to_string(),
            amount: i,
            hash: format!("tx{}", i),
            timestamp: i,
        });
    }
    for i in 0..510u64 {
        metrics.add_log_at("info".to_string(), format!("line {}", i), i);
    }
    assert_eq!(metrics.history_sizes(), (100, 50, 500));
    assert_eq!(metrics.get_blocks()[0].slot, 30);
    assert_eq!(metrics.get_blocks()[99].slot, 129);
    assert_eq!(metrics.get_transactions()[0].amount, 10);
    assert_eq!(metrics.get_logs()[0].message, "line 10");
    assert_eq!(metrics.get_logs()[499].timestamp, 509);
    metrics.add_log("warn".to_string(), "now".to_string());
    assert_eq!(metrics.get_logs()[499].level, "warn");
    assert_eq!(metrics.get_logs()[0].message, "line 11");
}

#[test]
fn status_sums_up_the_counters() {
    let mut metrics = Metrics::new_at(100);
    let empty = metrics.get_status_at(160);
    assert_eq!(empty.avg_block_time, 10_000);
    assert_eq!(empty.uptime_seconds, 60);
    assert_eq!((empty.latest_tx_count, empty.history_tx_count, empty.blocks_produced), (0, 0, 0));

    metrics.record_block(block_metric(4, 3, 900));
    metrics.record_block(block_metric(5, 7, 1_200));
    metrics.set_mempool_size(12);
    metrics.set_memory_mb(64);
    let status = metrics.get_status_at(50);
    assert_eq!(status.current_slot, 5);
    assert_eq!(status.blocks_produced, 2);
    assert_eq!(status.avg_block_time, 1_050);
    assert_eq!(status.latest_tx_count, 7);
    assert_eq!(status.latest_block_time_ms, 1_200);
    assert_eq!(status.history_tx_count, 10);
    assert_eq!(status.total_block_time_ms, 2_100);
    assert_eq!(status.mempool_size, 12);
    assert_eq!(status.memory_mb, 64);
    assert_eq!(status.uptime_seconds, 0);
    assert!(Metrics::new().get_status().uptime_seconds < 5);
}

fn peer(id: &str, latency_ms: u64) -> PeerMetric {
    PeerMetric { peer_id: id.to_string(), address: format!("{}:9000", id), latency_ms, connected_at: 1 }
}

#[test]
fn listed_peers_are_kept_by_id() {
    let mut metrics = Metrics::new_at(0);
    metrics.add_peer(peer("a", 10));
    metrics.add_peer(peer("b", 20));
    metrics.add_peer(peer("a", 99));
    assert_eq!(metrics.get_peers().len(), 2);
    assert_eq!(metrics.get_peers()[0].latency_ms, 10);
    metrics.update_peer_latency("b", 5);
    metrics.update_peer_latency("zz", 5);
    assert_eq!(metrics.get_peers()[1].latency_ms, 5);
    assert_eq!(metrics.get_status_at(0).connected_peers, 2);
    metrics.remove_peer("a");
    metrics.remove_peer("zz");
    let left: Vec<String> = metrics.get_peers().into_iter().map(|p| p.peer_id).collect();
    assert_eq!(left, vec!["b"]);
}

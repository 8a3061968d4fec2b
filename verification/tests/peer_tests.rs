use pos_chain::peer_manager::{take_first, PeerManager, MAX_PEERS};

fn names(ids: &[&str]) -> Vec<String> {
    ids.iter().map(|s| s.to_string()).collect()
}

#[test]
fn peers_are_added_once_in_order() {
    let mut peers = PeerManager::new(names(&["boot:1"]));
    assert_eq!(peers.len(), 0);
    assert_eq!(peers.get_bootstrap_nodes(), vec!["boot:1"]);
    peers.add_peer_at("b:1".to_string(), 10);
    peers.add_peer_at("a:1".to_string(), 11);
    peers.add_peer_at("b:1".to_string(), 12);
    assert_eq!(peers.len(), 2);
    assert_eq!(peers.get_all_known_peers(), vec!["b:1", "a:1"]);
    assert!(peers.get_connected_peers().is_empty());
    assert_eq!(peers.dialable_peers_at(10 + 299), vec!["b:1", "a:1"]);
    assert_eq!(peers.dialable_peers_at(10 + 300), vec!["a:1"]);
}

#[test]
fn table_holds_at_most_fifty() {
    let mut peers = PeerManager::new(vec![]);
    for i in 0..60 {
        peers.add_peer_at(format!("10.0.0.{}:9000", i), 1);
    }
    assert_eq!(peers.len(), MAX_PEERS);
    assert_eq!(peers.get_all_known_peers().len(), 50);
    assert_eq!(peers.get_all_known_peers()[49], "10.0.0.49:9000");
    peers.add_peer("late:1".to_string());
    assert_eq!(peers.len(), 50);
}

#[test]
fn connecting_and_disconnecting() {
    let mut peers = PeerManager::new(vec![]);
    peers.add_peer_at("a:1".to_string(), 10);
    peers.add_peer_at("b:1".to_string(), 10);
    peers.mark_connected_at("b:1", 500);
    peers.mark_connected_at("unknown:1", 500);
    assert_eq!(peers.len(), 2);
    assert_eq!(peers.get_connected_peers(), vec!["b:1"]);
    assert!(peers.dialable_peers_at(20).contains(&"a:1".to_string()));
    assert!(!peers.dialable_peers_at(20).contains(&"b:1".to_string()));
    peers.mark_disconnected("b:1");
    assert!(peers.get_connected_peers().is_empty());
    assert_eq!(peers.dialable_peers_at(799), vec!["b:1"]);
    assert!(peers.dialable_peers_at(800).is_empty());
    peers.update_seen_at("a:1", 790);
    assert_eq!(peers.dialable_peers_at(800), vec!["a:1"]);
}

#[test]
fn stale_peers_are_swept() {
    let mut peers = PeerManager::new(vec![]);
    peers.add_peer_at("old:1".to_string(), 100);
    peers.add_peer_at("old-connected:1".to_string(), 100);
    peers.add_peer_at("edge:1".to_string(), 201);
    peers.add_peer_at("fresh:1".to_string(), 450);
    peers.mark_connected_at("old-connected:1", 100);
    peers.cleanup_stale_peers_at(500);
    assert_eq!(peers.get_all_known_peers(), vec!["old-connected:1", "edge:1", "fresh:1"]);
    peers.cleanup_stale_peers_at(501);
    assert_eq!(peers.get_all_known_peers(), vec!["old-connected:1", "fresh:1"]);
    peers.cleanup_stale_peers_at(10);
    assert_eq!(peers.len(), 2);
}

#[test]
fn dial_list_is_a_draw_of_at_most_ten() {
    let mut peers = PeerManager::new(vec![]);
    for i in 0..30 {
        peers.add_peer(format!("10.0.0.{}:9000", i));
    }
    peers.mark_connected("10.0.0.3:9000");
    let all = peers.get_all_known_peers();
    let mut seen = std::collections::BTreeSet::new();
    for _ in 0..40 {
        let dials = peers.get_peers_to_connect();
        assert_eq!(dials.len(), 10);
        let distinct: std::collections::BTreeSet<&String> = dials.iter().collect();
        assert_eq!(distinct.len(), 10);
        for addr in &dials {
            assert!(all.contains(addr));
            assert_ne!(addr, "10.0.0.3:9000");
            seen.insert(addr.clone());
        }
    }
    assert!(seen.len() > 10);

    let mut few = PeerManager::new(vec![]);
    few.add_peer("a:1".to_string());
    few.add_peer("b:1".to_string());
    let mut dials = few.get_peers_to_connect();
    dials.sort();
    assert_eq!(dials, vec!["a:1", "b:1"]);
}

#[test]
fn clock_driven_calls_use_the_present() {
    let mut peers = PeerManager::new(vec![]);
    peers.add_peer("a:1".to_string());
    peers.mark_connected("a:1");
    peers.update_seen("a:1");
    peers.mark_disconnected("a:1");
    peers.cleanup_stale_peers();
    assert_eq!(peers.get_all_known_peers(), vec!["a:1"]);
    assert!(peers.dialable_peers_at(1_000_000_000).is_empty() == false);
    assert!(peers.dialable_peers_at(u64::MAX).is_empty());
}

#[test]
fn take_first_truncates() {
    assert_eq!(take_first(names(&["a", "b", "c"]), 2), vec!["a", "b"]);
    assert_eq!(take_first(names(&["a", "b", "c"]), 3), vec!["a", "b", "c"]);
    assert_eq!(take_first(names(&["a"]), 10), vec!["a"]);
    assert!(take_first(names(&["a"]), 0).is_empty());
}

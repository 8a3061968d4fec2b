use pos_chain::tpi::{
    check_tpi_consensus, compute_block_hash, select_broadcaster_by_merit, select_tpi_validators,
    TpiConsensus, TpiHashMessage,
};
use pos_chain::types::{Block, Transaction};

fn create_tpi_message(slot: u64, validator_id: &str, block_hash: &str) -> TpiHashMessage {
    TpiHashMessage {
        slot,
        validator_id: validator_id.to_string(),
        block_hash: block_hash.to_string(),
        signature: vec![],
    }
}

#[test]
fn test_tpi_perfect_consensus() {
    let responses = vec![
        create_tpi_message(1, "val1", "hash123"),
        create_tpi_message(1, "val2", "hash123"),
        create_tpi_message(1, "val3", "hash123"),
    ];

    match check_tpi_consensus(responses) {
        TpiConsensus::Perfect(hash) => assert_eq!(hash, "hash123"),
        _ => panic!("Expected perfect consensus"),
    }
}

#[test]
fn test_tpi_two_of_three_consensus() {
    let responses = vec![
        create_tpi_message(1, "val1", "hash123"),
        create_tpi_message(1, "val2", "hash123"),
        create_tpi_message(1, "val3", "hash456"),
    ];

    match check_tpi_consensus(responses) {
        TpiConsensus::TwoOfThree(hash, outlier) => {
            assert_eq!(hash, "hash123");
            assert_eq!(outlier, "val3");
        }
        _ => panic!("Expected two-of-three consensus"),
    }
}

#[test]
fn test_tpi_two_of_two_consensus() {
    let responses = vec![
        create_tpi_message(1, "val1", "hash123"),
        create_tpi_message(1, "val2", "hash123"),
    ];

    match check_tpi_consensus(responses) {
        TpiConsensus::TwoOfTwo(hash, _missing) => {
            assert_eq!(hash, "hash123");
        }
        _ => panic!("Expected two-of-two consensus"),
    }
}

#[test]
fn test_tpi_no_consensus() {
    let responses = vec![
        create_tpi_message(1, "val1", "hash123"),
        create_tpi_message(1, "val2", "hash456"),
        create_tpi_message(1, "val3", "hash789"),
    ];

    match check_tpi_consensus(responses) {
        TpiConsensus::NoConsensus => {},
        _ => panic!("Expected no consensus"),
    }
}

#[test]
fn test_tpi_insufficient_data() {
    let responses = vec![
        create_tpi_message(1, "val1", "hash123"),
    ];

    match check_tpi_consensus(responses) {
        TpiConsensus::InsufficientData => {},
        _ => panic!("Expected insufficient data"),
    }
}

#[test]
fn test_tpi_two_validators_no_consensus() {
    let responses = vec![
        create_tpi_message(1, "val1", "hash123"),
        create_tpi_message(1, "val2", "hash456"),
    ];

    match check_tpi_consensus(responses) {
        TpiConsensus::NoConsensus => {},
        _ => panic!("Expected no consensus for conflicting two validators"),
    }
}

#[test]
fn outlier_is_named_wherever_it_stands() {
    let first = vec![
        create_tpi_message(1, "val1", "other"),
        create_tpi_message(1, "val2", "hash"),
        create_tpi_message(1, "val3", "hash"),
    ];
    match check_tpi_consensus(first) {
        TpiConsensus::TwoOfThree(hash, outlier) => {
            assert_eq!(hash, "hash");
            assert_eq!(outlier, "val1");
        }
        _ => panic!("expected two of three"),
    }
    let middle = vec![
        create_tpi_message(1, "V1", "h_a"),
        create_tpi_message(1, "V2", "h_b"),
        create_tpi_message(1, "V3", "h_a"),
    ];
    match check_tpi_consensus(middle) {
        TpiConsensus::TwoOfThree(hash, outlier) => {
            assert_eq!(hash, "h_a");
            assert_eq!(outlier, "V2");
        }
        _ => panic!("expected two of three"),
    }
}

#[test]
fn two_of_two_names_a_missing_member() {
    let responses = vec![create_tpi_message(1, "val1", "h"), create_tpi_message(1, "val2", "h")];
    match check_tpi_consensus(responses) {
        TpiConsensus::TwoOfTwo(_, missing) => assert_eq!(missing, "missing"),
        _ => panic!("expected two of two"),
    }
}

#[test]
fn none_or_more_than_three_is_insufficient() {
    assert!(matches!(check_tpi_consensus(vec![]), TpiConsensus::InsufficientData));
    let four = vec![
        create_tpi_message(1, "a", "h"),
        create_tpi_message(1, "b", "h"),
        create_tpi_message(1, "c", "h"),
        create_tpi_message(1, "d", "h"),
    ];
    assert!(matches!(check_tpi_consensus(four), TpiConsensus::InsufficientData));
}

#[test]
fn agreement_is_told_from_failure() {
    assert!(TpiConsensus::Perfect("h".to_string()).is_agreement());
    assert!(TpiConsensus::TwoOfThree("h".to_string(), "o".to_string()).is_agreement());
    assert!(TpiConsensus::TwoOfTwo("h".to_string(), "m".to_string()).is_agreement());
    assert!(!TpiConsensus::NoConsensus.is_agreement());
    assert!(!TpiConsensus::InsufficientData.is_agreement());
}

fn names(ids: &[&str]) -> Vec<String> {
    ids.iter().map(|s| s.to_string()).collect()
}

#[test]
fn committee_is_drawn_by_hash() {
    let three = names(&["V1", "V2", "V3"]);
    assert_eq!(select_tpi_validators(1, &three), vec!["V2", "V1", "V3"]);
    let five = names(&["validator_1", "validator_2", "validator_3", "validator_4", "validator_5"]);
    assert_eq!(select_tpi_validators(1000, &five), vec!["validator_3", "validator_4", "validator_5"]);
    assert_eq!(select_tpi_validators(1000, &five), select_tpi_validators(1000, &five));
}

#[test]
fn small_validator_sets_sit_whole() {
    assert!(select_tpi_validators(5, &[]).is_empty());
    assert_eq!(select_tpi_validators(0, &names(&["V1"])), vec!["V1"]);
    let mut two = select_tpi_validators(9, &names(&["a", "b"]));
    two.sort();
    assert_eq!(two, vec!["a", "b"]);
}

#[test]
fn broadcaster_has_highest_merit() {
    let scored = vec![
        ("validator_1".to_string(), 9800),
        ("validator_2".to_string(), 8200),
        ("validator_3".to_string(), 7500),
    ];
    assert_eq!(select_broadcaster_by_merit(&scored), "validator_1");
    let stakes = vec![("V1".to_string(), 100), ("V2".to_string(), 200), ("V3".to_string(), 300)];
    assert_eq!(select_broadcaster_by_merit(&stakes), "V3");
}

#[test]
fn broadcaster_ties_go_to_the_first() {
    let tied = vec![("a".to_string(), 5), ("b".to_string(), 7), ("c".to_string(), 7)];
    assert_eq!(select_broadcaster_by_merit(&tied), "b");
    assert_eq!(select_broadcaster_by_merit(&[]), "");
    assert_eq!(select_broadcaster_by_merit(&[("only".to_string(), 0)]), "only");
}

fn block(slot: u64, producer: &str, timestamp: u64, transactions: Vec<Transaction>) -> Block {
    Block {
        slot,
        parent_hash: "genesis".to_string(),
        hash: String::new(),
        producer: producer.to_string(),
        timestamp,
        transactions,
    }
}

#[test]
fn block_hash_is_sha256_of_the_content() {
    assert_eq!(
        compute_block_hash(&block(0, "V1", 0, vec![])),
        "c94a8759dff4de745de16ab13fc92d3b4aa193a64e035aa55cd9f4a379ec1e65"
    );
    let tx = Transaction {
        from: "alice".to_string(),
        from_pubkey: "aa".to_string(),
        to: "bob".to_string(),
        amount: 5,
        nonce: 3,
        fee: 2,
        signature: "ff".to_string(),
    };
    assert_eq!(
        compute_block_hash(&block(1, "validator_1", 1_700_000_010_000, vec![tx])),
        "6664cddc52a4601c8dc1846d0218047d346f29f9ac8866b2acd5ba191b347db7"
    );
}

#[test]
fn block_hash_ignores_the_hash_field_and_follows_the_content() {
    let a = block(4, "V1", 40_000, vec![]);
    let mut b = a.clone();
    b.hash = "anything".to_string();
    assert_eq!(compute_block_hash(&a), compute_block_hash(&b));
    let mut c = a.clone();
    c.slot = 5;
    assert_ne!(compute_block_hash(&a), compute_block_hash(&c));
    let mut d = a.clone();
    d.producer = "V2".to_string();
    assert_ne!(compute_block_hash(&a), compute_block_hash(&d));
}

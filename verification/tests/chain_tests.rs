use pos_chain::chain_state::Delegations;
use pos_chain::crypto::{keypair_to_address, sign_transaction, KeyPair};
use pos_chain::ledger::Ledger;
use pos_chain::tokenomics::calculate_epoch_rewards;
use pos_chain::tpi_production::create_block;
use pos_chain::types::{Block, ChainState, Mempool, Transaction};

fn alice() -> KeyPair {
    KeyPair::from_secret([11u8; 32])
}

fn signed(pair: &KeyPair, to: &str, amount: u64, nonce: u64, fee: u64) -> Transaction {
    let from = keypair_to_address(pair);
    let signature = sign_transaction(pair, &from, to, amount, nonce, fee);
    Transaction {
        from,
        from_pubkey: pair.public_hex(),
        to: to.to_string(),
        amount,
        nonce,
        fee,
        signature,
    }
}

fn unsigned(from: &str, to: &str, amount: u64, nonce: u64, fee: u64) -> Transaction {
    Transaction {
        from: from.to_string(),
        from_pubkey: String::new(),
        to: to.to_string(),
        amount,
        nonce,
        fee,
        signature: String::new(),
    }
}

fn block(slot: u64, producer: &str, transactions: Vec<Transaction>) -> Block {
    Block {
        slot,
        parent_hash: "genesis".to_string(),
        hash: format!("block_{}", slot),
        producer: producer.to_string(),
        timestamp: slot * 10_000,
        transactions,
    }
}

fn reward() -> u64 {
    calculate_epoch_rewards(0).block_reward
}

fn total(state: &ChainState) -> u128 {
    (0..state.accounts.len()).map(|i| state.accounts.line(i).1 as u128).sum()
}

#[test]
fn new_chain_is_empty() {
    let state = ChainState::new();
    assert_eq!(state.latest_slot, 0);
    assert_eq!(state.total_supply, 0);
    assert_eq!(state.get_balance("anyone"), 0);
    assert_eq!(state.get_nonce("anyone"), 0);
    assert!(!state.has_block(0));
    assert!(state.get_block(0).is_none());
    assert_eq!(state.accounts.len(), 0);
}

#[test]
fn valid_transaction_path() {
    let pair = alice();
    let address = keypair_to_address(&pair);
    let mut state = ChainState::new();
    state.accounts.set(&address, 1000);
    let mut mempool = Mempool::new();
    assert!(mempool.add(signed(&pair, "Bob", 100, 0, 10)));

    let candidate = create_block(0, "V1", &state, &mut mempool, 1_700_000_000_000);
    assert_eq!(candidate.transactions.len(), 1);
    assert_eq!(mempool.len(), 0);
    assert!(state.add_block(candidate));

    assert_eq!(state.get_balance(&address), 890);
    assert_eq!(state.get_balance("Bob"), 100);
    assert_eq!(state.get_balance("V1"), reward() + 10);
    assert_eq!(state.get_nonce(&address), 1);
    assert_eq!(state.get_nonce("Bob"), 0);
    assert_eq!(state.total_supply, reward());
}

#[test]
fn bad_nonce_rejects_block() {
    let pair = alice();
    let address = keypair_to_address(&pair);
    let mut state = ChainState::new();
    state.accounts.set(&address, 1000);

    assert!(!state.add_block(block(0, "V1", vec![signed(&pair, "Bob", 100, 1, 10)])));

    assert_eq!(state.get_balance(&address), 1000);
    assert_eq!(state.get_balance("Bob"), 0);
    assert_eq!(state.get_balance("V1"), 0);
    assert_eq!(state.get_nonce(&address), 0);
    assert_eq!(state.total_supply, 0);
    assert!(!state.has_block(0));
}

#[test]
fn spending_the_whole_balance_succeeds_and_one_more_fails() {
    let pair = alice();
    let address = keypair_to_address(&pair);

    let mut exact = ChainState::new();
    exact.accounts.set(&address, 110);
    assert!(exact.add_block(block(0, "V1", vec![signed(&pair, "Bob", 100, 0, 10)])));
    assert_eq!(exact.get_balance(&address), 0);
    assert_eq!(exact.get_balance("Bob"), 100);

    let mut short = ChainState::new();
    short.accounts.set(&address, 109);
    assert!(!short.add_block(block(0, "V1", vec![signed(&pair, "Bob", 100, 0, 10)])));
    assert_eq!(short.get_balance(&address), 109);
    assert_eq!(short.get_balance("Bob"), 0);
    assert!(!short.has_block(0));
}

#[test]
fn block_with_a_failing_second_transaction_changes_nothing() {
    let pair = alice();
    let address = keypair_to_address(&pair);
    let mut state = ChainState::new();
    state.accounts.set(&address, 1000);
    let good = signed(&pair, "Bob", 100, 0, 10);
    let overdrawn = signed(&pair, "Carol", 2000, 1, 10);

    assert!(!state.add_block(block(0, "V1", vec![good.clone(), overdrawn])));
    assert_eq!(state.get_balance(&address), 1000);
    assert_eq!(state.get_balance("Bob"), 0);
    assert_eq!(state.get_balance("Carol"), 0);
    assert_eq!(state.get_balance("V1"), 0);
    assert_eq!(state.get_nonce(&address), 0);
    assert_eq!(state.accounts.len(), 1);
    assert_eq!(state.nonces.len(), 0);
    assert_eq!(state.total_supply, 0);
    assert_eq!(state.latest_slot, 0);
    assert!(!state.has_block(0));

    assert!(state.add_block(block(0, "V1", vec![good])));
    assert_eq!(state.get_balance("Bob"), 100);
}

#[test]
fn invalid_signature_rejects_block() {
    let pair = alice();
    let address = keypair_to_address(&pair);
    let mut state = ChainState::new();
    state.accounts.set(&address, 1000);
    let mut forged = signed(&pair, "Bob", 100, 0, 10);
    forged.amount = 900;
    assert!(!state.add_block(block(0, "V1", vec![forged])));
    let mut foreign = signed(&pair, "Bob", 100, 0, 10);
    foreign.from_pubkey = KeyPair::from_secret([12u8; 32]).public_hex();
    assert!(!state.add_block(block(0, "V1", vec![foreign])));
    assert!(!state.add_block(block(0, "V1", vec![unsigned(&address, "Bob", 1, 0, 0)])));
    assert_eq!(state.get_balance(&address), 1000);
}

#[test]
fn adding_a_block_twice_commits_once() {
    let mut state = ChainState::new();
    let first = block(3, "V1", vec![]);
    assert!(state.add_block(first.clone()));
    assert!(!state.add_block(first));
    assert_eq!(state.get_balance("V1"), reward());
    assert_eq!(state.total_supply, reward());

    let mut rival = block(3, "V2", vec![]);
    rival.hash = "other".to_string();
    assert!(!state.add_block(rival));
    assert_eq!(state.get_block(3).unwrap().producer, "V1");
    assert_eq!(state.get_balance("V2"), 0);
}

#[test]
fn latest_slot_is_the_highest_committed() {
    let mut state = ChainState::new();
    assert!(state.add_block(block(5, "V1", vec![])));
    assert_eq!(state.latest_slot, 5);
    assert!(state.add_block(block(2, "V1", vec![])));
    assert_eq!(state.latest_slot, 5);
    assert!(state.add_block(block(9, "V1", vec![])));
    assert_eq!(state.latest_slot, 9);
    assert!(state.has_block(2) && state.has_block(5) && state.has_block(9));
}

#[test]
fn nonces_run_in_sequence() {
    let pair = alice();
    let address = keypair_to_address(&pair);
    let mut state = ChainState::new();
    state.accounts.set(&address, 1000);
    let txs = vec![signed(&pair, "Bob", 1, 0, 0), signed(&pair, "Bob", 1, 1, 0), signed(&pair, "Bob", 1, 2, 0)];
    assert!(state.add_block(block(0, "V1", txs)));
    assert_eq!(state.get_nonce(&address), 3);
    assert!(!state.add_block(block(1, "V1", vec![signed(&pair, "Bob", 1, 2, 0)])));
    assert!(!state.add_block(block(1, "V1", vec![signed(&pair, "Bob", 1, 4, 0)])));
    assert!(state.add_block(block(1, "V1", vec![signed(&pair, "Bob", 1, 3, 0)])));
    assert_eq!(state.get_nonce(&address), 4);
    assert_eq!(state.get_balance("Bob"), 4);
}

#[test]
fn value_is_conserved_but_for_the_reward() {
    let pair = alice();
    let other = KeyPair::from_secret([13u8; 32]);
    let a = keypair_to_address(&pair);
    let b = keypair_to_address(&other);
    let mut state = ChainState::new();
    state.accounts.set(&a, 1000);
    state.accounts.set(&b, 500);
    let before = total(&state);
    let txs = vec![
        signed(&pair, &b, 300, 0, 7),
        signed(&other, "Carol", 800, 0, 0),
        signed(&pair, &a, 10, 1, 1),
    ];
    assert!(state.add_block(block(0, "V1", txs)));
    assert_eq!(total(&state), before + reward() as u128);
    assert_eq!(state.get_balance(&a), 1000 - 300 - 7 - 1);
    assert_eq!(state.get_balance(&b), 0);
    assert_eq!(state.get_balance("Carol"), 800);
    assert_eq!(state.get_balance("V1"), reward() + 8);
}

#[test]
fn fees_go_to_the_delegated_validator() {
    let pair = alice();
    let address = keypair_to_address(&pair);
    let mut state = ChainState::new();
    state.accounts.set(&address, 1000);
    state.delegations.delegate(&address, "V9");
    assert!(state.add_block(block(0, "V1", vec![signed(&pair, "Bob", 100, 0, 10)])));
    assert_eq!(state.get_balance("V9"), 10);
    assert_eq!(state.get_balance("V1"), reward());

    state.delegations.delegate(&address, "V8");
    assert!(state.add_block(block(1, "V1", vec![signed(&pair, "Bob", 100, 1, 10)])));
    assert_eq!(state.get_balance("V9"), 10);
    assert_eq!(state.get_balance("V8"), 10);
}

#[test]
fn delegations_answer_with_the_latest() {
    let mut delegations = Delegations::new();
    assert_eq!(delegations.delegate_of("a"), None);
    delegations.delegate("a", "V1");
    delegations.delegate("b", "V2");
    delegations.delegate("a", "V3");
    assert_eq!(delegations.delegate_of("a"), Some("V3".to_string()));
    assert_eq!(delegations.delegate_of("b"), Some("V2".to_string()));
    assert_eq!(delegations.delegate_of("c"), None);
}

#[test]
fn commit_block_takes_the_checks_it_is_given() {
    let mut state = ChainState::new();
    state.accounts.set("alice", 1000);
    let txs = vec![unsigned("alice", "bob", 100, 0, 10), unsigned("alice", "bob", 50, 1, 5)];

    assert!(!state.commit_block(block(0, "V1", txs.clone()), &[true, false]));
    assert!(!state.commit_block(block(0, "V1", txs.clone()), &[true]));
    assert!(!state.commit_block(block(0, "V1", txs.clone()), &[]));
    assert_eq!(state.get_balance("alice"), 1000);
    assert!(!state.has_block(0));

    assert!(state.commit_block(block(0, "V1", txs.clone()), &[true, true, false]));
    assert_eq!(state.get_balance("alice"), 835);
    assert_eq!(state.get_balance("bob"), 150);
    assert_eq!(state.get_balance("V1"), reward() + 15);
    assert_eq!(state.get_nonce("alice"), 2);
    assert!(!state.commit_block(block(0, "V1", vec![]), &[]));
}

#[test]
fn amounts_beyond_the_range_are_refused() {
    let mut state = ChainState::new();
    state.accounts.set("alice", u64::MAX);
    state.accounts.set("bob", 1);
    assert!(!state.commit_block(block(0, "V1", vec![unsigned("alice", "x", u64::MAX, 0, 1)]), &[true]));
    assert!(!state.commit_block(block(0, "V1", vec![unsigned("alice", "bob", u64::MAX, 0, 0)]), &[true]));
    assert!(state.commit_block(block(0, "V1", vec![unsigned("alice", "alice", u64::MAX, 0, 0)]), &[true]));
    assert_eq!(state.get_balance("alice"), u64::MAX);
    state.nonces.set("bob", u64::MAX);
    assert!(!state.commit_block(block(1, "V1", vec![unsigned("bob", "x", 1, u64::MAX, 0)]), &[true]));
}

#[test]
fn check_signatures_answers_for_each_transaction() {
    let pair = alice();
    let mut bad = signed(&pair, "Bob", 5, 1, 0);
    bad.fee = 1;
    let txs = vec![signed(&pair, "Bob", 5, 0, 0), bad, unsigned("a", "b", 1, 0, 0)];
    assert_eq!(ChainState::check_signatures(&txs), vec![true, false, false]);
    assert!(ChainState::check_signatures(&vec![]).is_empty());
}

#[test]
fn ledger_keeps_amounts_by_address() {
    let mut ledger = Ledger::new();
    assert_eq!(ledger.get("a"), 0);
    assert!(!ledger.contains("a"));
    ledger.set("a", 5);
    ledger.set("b", 7);
    ledger.set("a", 9);
    assert_eq!(ledger.len(), 2);
    assert_eq!(ledger.get("a"), 9);
    assert_eq!(ledger.get("b"), 7);
    assert_eq!(ledger.get("c"), 0);
    assert!(ledger.contains("b"));
    assert_eq!(ledger.line(0), ("a".to_string(), 9));
    assert_eq!(ledger.line(1), ("b".to_string(), 7));
    let copy = ledger.clone();
    ledger.set("b", 0);
    assert_eq!(copy.get("b"), 7);
    assert!(ledger.contains("b"));
}

#[test]
fn created_block_names_its_parent_and_time() {
    let mut state = ChainState::new();
    let mut mempool = Mempool::new();
    let genesis = create_block(0, "V1", &state, &mut mempool, 5_000);
    assert_eq!(genesis.slot, 0);
    assert_eq!(genesis.parent_hash, "genesis");
    assert_eq!(genesis.producer, "V1");
    assert_eq!(genesis.timestamp, 5_000);
    assert!(genesis.transactions.is_empty());
    assert_eq!(genesis.hash, pos_chain::tpi::compute_block_hash(&genesis));
    let parent_hash = genesis.hash.clone();
    assert!(state.add_block(genesis));

    let next = create_block(1, "V2", &state, &mut mempool, 5_000);
    assert_eq!(next.parent_hash, parent_hash);
    assert_eq!(next.timestamp, 15_000);
    let orphan = create_block(7, "V2", &state, &mut mempool, 5_000);
    assert_eq!(orphan.parent_hash, "genesis");
    assert_eq!(orphan.timestamp, 75_000);
}

#[test]
fn created_block_takes_at_most_a_hundred_transactions() {
    let state = ChainState::new();
    let mut mempool = Mempool::new();
    for i in 0..130u64 {
        mempool.add(unsigned(&format!("a{}", i), "b", 1, i, 0));
    }
    let first = create_block(0, "V1", &state, &mut mempool, 0);
    assert_eq!(first.transactions.len(), 100);
    assert!(first.transactions.iter().all(|t| t.nonce < 100));
    assert_eq!(mempool.len(), 30);
    let second = create_block(1, "V1", &state, &mut mempool, 0);
    assert_eq!(second.transactions.len(), 30);
    assert_eq!(mempool.len(), 0);
}

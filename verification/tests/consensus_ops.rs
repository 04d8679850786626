use orbit_chain::consensus::{ProofOfAuthority, ConsensusError, verify_block_signature};
use orbit_chain::crypto::{Keypair, hash_transaction};
use orbit_chain::ledger::{Ledger, LedgerError};
use orbit_chain::types::{Block, ChainConfig, Transaction};

fn test_config(validators: Vec<Vec<u8>>, max_tx_per_block: usize) -> ChainConfig {
    let mut config = ChainConfig::default();
    config.genesis_validators = validators;
    config.max_tx_per_block = max_tx_per_block;
    config
}

// A fixed wall-clock reading; block production takes the timestamp as an
// argument, so tests are deterministic.
const NOW: u64 = 1_700_000_000;

fn fresh_ledger() -> Ledger {
    let mut ledger = Ledger::in_memory().unwrap();
    ledger.init_genesis(&Block::genesis(NOW)).unwrap();
    ledger
}

fn make_tx(from: Vec<u8>, to: Vec<u8>, amount: u64, nonce: u64) -> Transaction {
    let mut tx = Transaction::new(from, to, amount, nonce, 1, 1, Vec::new(), NOW);
    tx.hash = hash_transaction(&tx);
    tx
}

#[test]
fn genesis_state() {
    let ledger = fresh_ledger();
    assert_eq!(ledger.get_latest_height().unwrap(), 0);
    let genesis = ledger.get_block(0).unwrap();
    assert_eq!(genesis.header.height, 0);
    assert_eq!(genesis.transactions.len(), 0);
    assert_eq!(genesis.header.prev_hash, vec![0u8; 32]);
}

#[test]
fn submission_rejects_zero_gas_limit() {
    let keypair = Keypair::generate();
    let config = test_config(vec![keypair.address()], 100);
    let mut consensus = ProofOfAuthority::new(config, fresh_ledger(), Some(keypair));
    let mut tx = Transaction::new(
        vec![1u8; 20],
        vec![2u8; 20],
        10,
        0,
        0,
        1,
        Vec::new(),
        NOW,
    );
    tx.hash = hash_transaction(&tx);
    match consensus.submit_transaction(tx) {
        Err(ConsensusError::InvalidTransaction(msg)) => {
            assert_eq!(msg, "Gas limit cannot be zero")
        },
        other => panic!("unexpected result: {:?}", other),
    }
    assert_eq!(consensus.mempool_size(), 0);
}

#[test]
fn submission_rejects_self_transfer() {
    let keypair = Keypair::generate();
    let config = test_config(vec![keypair.address()], 100);
    let mut consensus = ProofOfAuthority::new(config, fresh_ledger(), Some(keypair));
    let tx = make_tx(vec![1u8; 20], vec![1u8; 20], 10, 0);
    match consensus.submit_transaction(tx) {
        Err(ConsensusError::InvalidTransaction(msg)) => assert_eq!(msg, "Cannot send to self"),
        other => panic!("unexpected result: {:?}", other),
    }
    assert_eq!(consensus.mempool_size(), 0);
}

#[test]
fn submission_returns_frozen_hash() {
    let keypair = Keypair::generate();
    let config = test_config(vec![keypair.address()], 100);
    let mut consensus = ProofOfAuthority::new(config, fresh_ledger(), Some(keypair));
    let tx = make_tx(vec![1u8; 20], vec![2u8; 20], 10, 0);
    let expected = tx.hash.clone();
    assert_eq!(consensus.submit_transaction(tx).unwrap(), expected);
    assert_eq!(consensus.mempool_size(), 1);
}

#[test]
fn mint_and_transfer_through_block() {
    let keypair = Keypair::generate();
    let a = vec![1u8; 20];
    let b = vec![2u8; 20];
    let mut ledger = fresh_ledger();
    ledger.mint(&a, 1000).unwrap();
    let config = test_config(vec![keypair.address()], 100);
    let mut consensus = ProofOfAuthority::new(config, ledger, Some(keypair));

    let tx = make_tx(a.clone(), b.clone(), 100, 0);
    let tx_hash = tx.hash.clone();
    let tx_copy = tx.clone();
    consensus.submit_transaction(tx).unwrap();
    let block = consensus.produce_block(NOW).unwrap();

    assert_eq!(block.header.height, 1);
    assert_eq!(block.transactions.len(), 1);
    assert_eq!(consensus.ledger().get_balance(&b).unwrap(), 100);
    assert_eq!(consensus.ledger().get_balance(&a).unwrap(), 1000 - 100 - 1);
    assert_eq!(consensus.ledger().get_account(&a).unwrap().nonce, 1);
    // the persisted transaction is retrievable by its hash
    assert_eq!(consensus.ledger().get_transaction(&tx_hash).unwrap(), tx_copy);
    // and the chain links the new block to genesis
    let genesis = consensus.ledger().get_block(0).unwrap();
    assert_eq!(block.header.prev_hash, genesis.hash);
}

#[test]
fn invalid_nonce_is_included_but_not_applied() {
    let keypair = Keypair::generate();
    let a = vec![1u8; 20];
    let b = vec![2u8; 20];
    let mut ledger = fresh_ledger();
    ledger.mint(&a, 1000).unwrap();
    let config = test_config(vec![keypair.address()], 100);
    let mut consensus = ProofOfAuthority::new(config, ledger, Some(keypair));

    let tx = make_tx(a.clone(), b.clone(), 100, 5);
    consensus.submit_transaction(tx).unwrap();
    let block = consensus.produce_block(NOW).unwrap();

    assert_eq!(block.transactions.len(), 1);
    assert_eq!(consensus.ledger().get_balance(&a).unwrap(), 1000);
    assert_eq!(consensus.ledger().get_balance(&b).unwrap(), 0);
    assert_eq!(consensus.ledger().get_account(&a).unwrap().nonce, 0);
}

#[test]
fn block_cap_respected_when_mempool_is_larger() {
    let keypair = Keypair::generate();
    let a = vec![1u8; 20];
    let b = vec![2u8; 20];
    let mut ledger = fresh_ledger();
    ledger.mint(&a, 1000).unwrap();
    let config = test_config(vec![keypair.address()], 2);
    let mut consensus = ProofOfAuthority::new(config, ledger, Some(keypair));

    for nonce in 0..3 {
        consensus.submit_transaction(make_tx(a.clone(), b.clone(), 1, nonce)).unwrap();
    }
    let block = consensus.produce_block(NOW).unwrap();
    assert_eq!(block.transactions.len(), 2);
    assert_eq!(consensus.mempool_size(), 1);
    // the two drained transactions are the two oldest
    assert_eq!(block.transactions[0].nonce, 0);
    assert_eq!(block.transactions[1].nonce, 1);
}

#[test]
fn empty_mempool_yields_empty_block_with_zero_merkle() {
    let keypair = Keypair::generate();
    let config = test_config(vec![keypair.address()], 100);
    let mut consensus = ProofOfAuthority::new(config, fresh_ledger(), Some(keypair));
    let block = consensus.produce_block(NOW).unwrap();
    assert_eq!(block.transactions.len(), 0);
    assert_eq!(block.header.merkle_root, vec![0u8; 32]);
    assert_eq!(block.header.height, 1);
}

#[test]
fn producer_without_key_is_not_validator() {
    let keypair = Keypair::generate();
    let config = test_config(vec![keypair.address()], 100);
    let mut consensus = ProofOfAuthority::new(config, fresh_ledger(), None);
    assert!(matches!(consensus.produce_block(NOW), Err(ConsensusError::NotValidator)));
}

#[test]
fn producer_outside_set_is_not_validator() {
    let keypair = Keypair::generate();
    let config = test_config(vec![vec![9u8; 20]], 100);
    let mut consensus = ProofOfAuthority::new(config, fresh_ledger(), Some(keypair));
    assert!(matches!(consensus.produce_block(NOW), Err(ConsensusError::NotValidator)));
}

#[test]
fn round_robin_rotates_through_validators() {
    let kp1 = Keypair::generate();
    let kp2 = Keypair::generate();
    let v1 = kp1.address();
    let v2 = kp2.address();
    let config = test_config(vec![v1.clone(), v2.clone()], 100);
    let mut consensus = ProofOfAuthority::new(config, fresh_ledger(), Some(kp1.clone()));

    assert_eq!(consensus.current_validator().unwrap(), v1);
    let b1 = consensus.produce_block(NOW).unwrap();
    assert_eq!(b1.header.validator, v1);

    assert_eq!(consensus.current_validator().unwrap(), v2);
    consensus.set_keypair(Some(kp2));
    let b2 = consensus.produce_block(NOW).unwrap();
    assert_eq!(b2.header.validator, v2);

    assert_eq!(consensus.current_validator().unwrap(), v1);
    consensus.set_keypair(Some(kp1));
    let b3 = consensus.produce_block(NOW).unwrap();
    assert_eq!(b3.header.validator, v1);
}

#[test]
fn restart_preserves_ledger() {
    let path = format!("/tmp/orbit_chain_restart_{}", rand::random::<u64>());
    let keypair = Keypair::generate();
    let config = test_config(vec![keypair.address()], 100);
    let block3;
    {
        let mut ledger = Ledger::new(&path).unwrap();
        ledger.init_genesis(&Block::genesis(NOW)).unwrap();
        let mut consensus = ProofOfAuthority::new(config, ledger, Some(keypair));
        for _ in 0..5 {
            consensus.produce_block(NOW).unwrap();
        }
        assert_eq!(consensus.ledger().get_latest_height().unwrap(), 5);
        block3 = consensus.ledger().get_block(3).unwrap();
    }
    let reopened = Ledger::new(&path).unwrap();
    assert_eq!(reopened.get_latest_height().unwrap(), 5);
    let block3_again = reopened.get_block(3).unwrap();
    assert_eq!(block3_again, block3);
    assert_eq!(
        orbit_chain::codec::encode_block(&block3_again),
        orbit_chain::codec::encode_block(&block3)
    );
}

#[test]
fn produced_block_signature_verifies() {
    let keypair = Keypair::generate();
    let config = test_config(vec![keypair.address()], 100);
    let mut consensus = ProofOfAuthority::new(config, fresh_ledger(), Some(keypair.clone()));
    let block = consensus.produce_block(NOW).unwrap();
    assert!(verify_block_signature(&block, &keypair.public_key()).is_ok());

    let other = Keypair::generate();
    match verify_block_signature(&block, &other.public_key()) {
        Err(ConsensusError::InvalidBlock(msg)) => {
            assert_eq!(msg, "Public key does not match block producer")
        },
        other => panic!("unexpected result: {:?}", other),
    }

    let mut tampered = block.clone();
    tampered.header.timestamp += 1;
    match verify_block_signature(&tampered, &keypair.public_key()) {
        Err(ConsensusError::InvalidBlock(msg)) => assert_eq!(msg, "Invalid block signature"),
        other => panic!("unexpected result: {:?}", other),
    }
}

#[test]
fn validate_block_checks_linkage_and_producer() {
    let keypair = Keypair::generate();
    let config = test_config(vec![keypair.address()], 100);
    let mut consensus = ProofOfAuthority::new(config, fresh_ledger(), Some(keypair));
    let block = consensus.produce_block(NOW).unwrap();
    assert!(consensus.validate_block(&block).is_ok());

    let mut wrong_prev = block.clone();
    wrong_prev.header.prev_hash = vec![9u8; 32];
    match consensus.validate_block(&wrong_prev) {
        Err(ConsensusError::InvalidBlock(msg)) => assert_eq!(msg, "Invalid previous hash"),
        other => panic!("unexpected result: {:?}", other),
    }

    let mut wrong_producer = block.clone();
    wrong_producer.header.validator = vec![9u8; 20];
    match consensus.validate_block(&wrong_producer) {
        Err(ConsensusError::InvalidBlock(msg)) => {
            assert_eq!(msg, "Block producer is not a validator")
        },
        other => panic!("unexpected result: {:?}", other),
    }

    let mut orphan = block.clone();
    orphan.header.height = 7;
    match consensus.validate_block(&orphan) {
        Err(ConsensusError::InvalidBlock(msg)) => assert_eq!(msg, "Previous block not found"),
        other => panic!("unexpected result: {:?}", other),
    }

    let mut wrong_merkle = block;
    wrong_merkle.header.merkle_root = vec![1u8; 32];
    match consensus.validate_block(&wrong_merkle) {
        Err(ConsensusError::InvalidBlock(msg)) => assert_eq!(msg, "Invalid merkle root"),
        other => panic!("unexpected result: {:?}", other),
    }
}

#[test]
fn validator_set_operations() {
    let config = test_config(vec![vec![1u8; 20]], 100);
    let mut consensus = ProofOfAuthority::new(config, fresh_ledger(), None);
    assert_eq!(consensus.validator_count(), 1);
    assert!(consensus.is_validator(&vec![1u8; 20]));
    assert!(!consensus.is_validator(&vec![2u8; 20]));

    consensus.add_validator(vec![2u8; 20]);
    assert_eq!(consensus.validator_count(), 2);
    // adding a member again is idempotent
    consensus.add_validator(vec![2u8; 20]);
    assert_eq!(consensus.validator_count(), 2);

    assert_eq!(consensus.current_validator().unwrap(), vec![1u8; 20]);
    consensus.rotate_validator();
    assert_eq!(consensus.current_validator().unwrap(), vec![2u8; 20]);
    consensus.rotate_validator();
    assert_eq!(consensus.current_validator().unwrap(), vec![1u8; 20]);
}

#[test]
fn total_cost_rejects_overflow() {
    let tx = Transaction::new(
        vec![1u8; 20],
        vec![2u8; 20],
        5,
        0,
        u64::MAX,
        2,
        Vec::new(),
        0,
    );
    assert_eq!(tx.total_cost(), None);
    let tx = Transaction::new(vec![1u8; 20], vec![2u8; 20], 5, 0, 3, 2, Vec::new(), 0);
    assert_eq!(tx.total_cost(), Some(11));
}

#[test]
fn default_config_values() {
    let config = ChainConfig::default();
    assert_eq!(config.chain_id, 1337);
    assert_eq!(config.chain_name, "DarkWave Chain");
    assert_eq!(config.symbol, "DWAV");
    assert_eq!(config.decimals, 8);
    assert_eq!(config.block_time_ms, 400);
    assert_eq!(config.max_block_size, 1_000_000);
    assert_eq!(config.max_tx_per_block, 10_000);
    assert!(config.genesis_validators.is_empty());
}

#[test]
fn ledger_error_surfaces_from_missing_chain() {
    // a consensus engine over an uninitialized ledger cannot find a head
    let keypair = Keypair::generate();
    let config = test_config(vec![keypair.address()], 100);
    let ledger = Ledger::in_memory().unwrap();
    let mut consensus = ProofOfAuthority::new(config, ledger, Some(keypair));
    match consensus.produce_block(NOW) {
        Err(ConsensusError::LedgerError(LedgerError::BlockNotFound(_))) => {},
        other => panic!("unexpected result: {:?}", other),
    }
}

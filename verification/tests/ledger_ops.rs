use orbit_chain::ledger::{Ledger, LedgerError};
use orbit_chain::types::{Account, Block, Transaction};
use orbit_chain::codec::{
    encode_transaction, decode_transaction, encode_account, decode_account, encode_block,
    decode_block, encode_header, decode_header,
};
use orbit_chain::crypto::hash_transaction;

fn sample_tx(amount: u64, nonce: u64) -> Transaction {
    let mut tx = Transaction::new(
        vec![1u8; 20],
        vec![2u8; 20],
        amount,
        nonce,
        1,
        1,
        vec![0xde, 0xad],
        42,
    );
    tx.hash = hash_transaction(&tx);
    tx
}

#[test]
fn test_in_memory_ledger() {
    let ledger = Ledger::in_memory().unwrap();
    let mut ledger = ledger;
    let genesis = Block::genesis(0);
    ledger.init_genesis(&genesis).unwrap();

    let retrieved = ledger.get_block(0).unwrap();
    assert_eq!(retrieved.header.height, 0);
}

#[test]
fn test_account_operations() {
    let mut ledger = Ledger::in_memory().unwrap();
    let address = vec![1u8; 20];

    ledger.mint(&address, 1000).unwrap();
    let balance = ledger.get_balance(&address).unwrap();
    assert_eq!(balance, 1000);
}

#[test]
fn transaction_codec_round_trip() {
    let tx = sample_tx(77, 3);
    let bytes = encode_transaction(&tx);
    let decoded = decode_transaction(&bytes).unwrap();
    assert_eq!(decoded, tx);
}

#[test]
fn transaction_codec_rejects_truncation() {
    let tx = sample_tx(77, 3);
    let mut bytes = encode_transaction(&tx);
    bytes.pop();
    assert!(decode_transaction(&bytes).is_none());
}

#[test]
fn account_codec_round_trip() {
    let plain = Account::new(vec![9u8; 20]);
    let bytes = encode_account(&plain);
    assert_eq!(decode_account(&bytes).unwrap(), plain);

    let full = Account {
        address: vec![8u8; 20],
        balance: 123456789,
        nonce: 42,
        code_hash: Some(vec![3u8; 32]),
        storage_root: Some(vec![4u8; 32]),
    };
    let bytes = encode_account(&full);
    assert_eq!(decode_account(&bytes).unwrap(), full);
}

#[test]
fn block_codec_round_trip() {
    let mut block = Block::genesis(5);
    block.transactions.push(sample_tx(10, 0));
    block.transactions.push(sample_tx(20, 1));
    let bytes = encode_block(&block);
    let decoded = decode_block(&bytes).unwrap();
    assert_eq!(decoded, block);
}

#[test]
fn header_codec_round_trip() {
    let block = Block::genesis(99);
    let bytes = encode_header(&block.header);
    assert_eq!(bytes.len(), 200);
    assert_eq!(decode_header(&bytes), block.header);
}

#[test]
fn get_block_missing_height() {
    let mut ledger = Ledger::in_memory().unwrap();
    ledger.init_genesis(&Block::genesis(0)).unwrap();
    match ledger.get_block(99) {
        Err(LedgerError::BlockNotFound(msg)) => assert_eq!(msg, "height: 99"),
        other => panic!("unexpected result: {:?}", other),
    }
}

#[test]
fn get_block_by_hash_finds_stored_block() {
    let mut ledger = Ledger::in_memory().unwrap();
    let genesis = Block::genesis(0);
    ledger.init_genesis(&genesis).unwrap();
    let fetched = ledger.get_block_by_hash(&genesis.hash).unwrap();
    assert_eq!(fetched, genesis);
}

#[test]
fn stored_transactions_are_indexed_by_hash() {
    let mut ledger = Ledger::in_memory().unwrap();
    let tx = sample_tx(5, 0);
    ledger.store_transaction(&tx).unwrap();
    assert_eq!(ledger.get_transaction(&tx.hash).unwrap(), tx);
    assert_eq!(ledger.get_total_transactions(), 1);
}

#[test]
fn unknown_account_reads_as_zero() {
    let ledger = Ledger::in_memory().unwrap();
    let account = ledger.get_account(&vec![7u8; 20]).unwrap();
    assert_eq!(account.balance, 0);
    assert_eq!(account.nonce, 0);
    assert_eq!(account.address, vec![7u8; 20]);
}

#[test]
fn apply_transaction_moves_value() {
    let mut ledger = Ledger::in_memory().unwrap();
    let a = vec![1u8; 20];
    let b = vec![2u8; 20];
    ledger.mint(&a, 1000).unwrap();
    let tx = sample_tx(100, 0);
    ledger.apply_transaction(&tx).unwrap();
    assert_eq!(ledger.get_balance(&a).unwrap(), 1000 - 100 - 1);
    assert_eq!(ledger.get_balance(&b).unwrap(), 100);
    assert_eq!(ledger.get_account(&a).unwrap().nonce, 1);
}

#[test]
fn apply_transaction_rejects_wrong_nonce() {
    let mut ledger = Ledger::in_memory().unwrap();
    ledger.mint(&vec![1u8; 20], 1000).unwrap();
    let tx = sample_tx(100, 5);
    assert_eq!(ledger.apply_transaction(&tx).unwrap_err(), LedgerError::InvalidNonce);
    assert_eq!(ledger.get_balance(&vec![1u8; 20]).unwrap(), 1000);
}

#[test]
fn apply_transaction_rejects_insufficient_balance() {
    let mut ledger = Ledger::in_memory().unwrap();
    ledger.mint(&vec![1u8; 20], 50).unwrap();
    let tx = sample_tx(100, 0);
    assert_eq!(
        ledger.apply_transaction(&tx).unwrap_err(),
        LedgerError::InsufficientBalance
    );
}

#[test]
fn apply_transaction_rejects_overflowing_cost() {
    let mut ledger = Ledger::in_memory().unwrap();
    ledger.mint(&vec![1u8; 20], u64::MAX).unwrap();
    // amount + gas_limit * gas_price exceeds u64::MAX, so no balance suffices
    let mut tx = Transaction::new(
        vec![1u8; 20],
        vec![2u8; 20],
        u64::MAX,
        0,
        2,
        1,
        Vec::new(),
        0,
    );
    tx.hash = hash_transaction(&tx);
    assert_eq!(
        ledger.apply_transaction(&tx).unwrap_err(),
        LedgerError::InsufficientBalance
    );
}

#[test]
fn mint_rejects_balance_overflow() {
    let mut ledger = Ledger::in_memory().unwrap();
    let a = vec![1u8; 20];
    ledger.mint(&a, u64::MAX).unwrap();
    assert_eq!(ledger.mint(&a, 1).unwrap_err(), LedgerError::BalanceOverflow);
    assert_eq!(ledger.get_balance(&a).unwrap(), u64::MAX);
}

#[test]
fn credit_overflow_is_rejected() {
    let mut ledger = Ledger::in_memory().unwrap();
    let a = vec![1u8; 20];
    let b = vec![2u8; 20];
    ledger.mint(&a, 10).unwrap();
    ledger.mint(&b, u64::MAX).unwrap();
    let tx = sample_tx(5, 0);
    assert_eq!(ledger.apply_transaction(&tx).unwrap_err(), LedgerError::BalanceOverflow);
    assert_eq!(ledger.get_balance(&a).unwrap(), 10);
}

#[test]
fn transfer_moves_value_and_bumps_nonce() {
    let mut ledger = Ledger::in_memory().unwrap();
    let a = vec![1u8; 20];
    let b = vec![2u8; 20];
    ledger.mint(&a, 500).unwrap();
    ledger.transfer(&a, &b, 200).unwrap();
    assert_eq!(ledger.get_balance(&a).unwrap(), 300);
    assert_eq!(ledger.get_balance(&b).unwrap(), 200);
    assert_eq!(ledger.get_account(&a).unwrap().nonce, 1);
    assert_eq!(
        ledger.transfer(&a, &b, 1000).unwrap_err(),
        LedgerError::InsufficientBalance
    );
}

#[test]
fn update_account_overwrites_record() {
    let mut ledger = Ledger::in_memory().unwrap();
    let account = Account::with_balance(vec![3u8; 20], 77);
    ledger.update_account(&account).unwrap();
    assert_eq!(ledger.get_account(&vec![3u8; 20]).unwrap(), account);
    assert_eq!(ledger.get_total_accounts(), 1);
}

#[test]
fn account_builders() {
    let a = Account::new(vec![1u8; 20]);
    assert_eq!(a.balance, 0);
    assert_eq!(a.nonce, 0);
    assert_eq!(a.code_hash, None);
    assert_eq!(a.storage_root, None);
    let b = Account::with_balance(vec![2u8; 20], 9);
    assert_eq!(b.balance, 9);
    assert_eq!(b.nonce, 0);
}

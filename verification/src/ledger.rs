//! Durable ledger: blocks indexed by height and by hash, transactions
//! indexed by hash, account records, and the latest-height marker, all kept
//! in four trees of an embedded key-value store.
//!
//! The store itself is an outside collection; each tree's contents are named
//! by `tree_entries` and every operation's contract says exactly how the
//! maps change. Records are serialized with the verified codec, so what a
//! read returns is pinned down to the bytes that were written.

use vstd::prelude::*;
use vstd::string::StringSliceAdditionalSpecFns;
use vstd::string::is_ascii;
use crate::bytesutil::{
    spec_u64_to_be_bytes, spec_u64_from_be_bytes, u64_to_be_bytes, u64_from_be_bytes,
    lemma_u64_be_bytes, lemma_u64_be_bytes_injective, copy_bytes,
};
use crate::types::{
    Transaction, TxView, Account, AccountView, Block, BlockView, views_of_txs,
};
use crate::crypto::{spec_merkle_root, spec_tx_hashes};
use crate::codec::{
    spec_encode_tx, spec_decode_tx, encode_transaction, decode_transaction, spec_encode_account,
    spec_decode_account, encode_account, decode_account, spec_encode_block, spec_decode_block,
    encode_block, decode_block, lemma_tx_round_trip, lemma_block_round_trip,
};

verus! {

#[derive(Debug, PartialEq, Eq)]
pub enum LedgerError {
    DatabaseError(String),
    BlockNotFound(String),
    AccountNotFound,
    InsufficientBalance,
    InvalidNonce,
    SerializationError(String),
    BalanceOverflow,
}

#[verifier::external_type_specification]
#[verifier::external_body]
pub struct ExSledDb(sled::Db);

#[verifier::external_type_specification]
#[verifier::external_body]
pub struct ExSledTree(sled::Tree);

#[verifier::external_type_specification]
#[verifier::external_body]
pub struct ExSledError(sled::Error);

/// What a tree of the store currently holds, as a map from keys to values.
pub uninterp spec fn tree_entries(t: sled::Tree) -> Map<Seq<u8>, Seq<u8>>;

/// The empty tree contents.
pub open spec fn empty_bytes_map() -> Map<Seq<u8>, Seq<u8>> {
    Map::empty()
}



/// Relies on sled::Tree::insert: on success the key now maps to the value
/// and every other key keeps its binding. The operation writes one key, so
/// even a failed insert leaves every other key's binding as it was;
/// whether the given key took the new value is then unknown.
#[verifier::external_body]
fn tree_insert(t: &mut sled::Tree, key: &[u8], value: &[u8]) -> (r: Result<(), sled::Error>)
    ensures
        r matches Ok(_) ==> tree_entries(*final(t)) == tree_entries(*old(t)).insert(key@, value@),
        r matches Err(_) ==> tree_entries(*final(t)).remove(key@) == tree_entries(*old(t)).remove(
            key@,
        ),
{
    t.insert(key, value).map(|_| ())
}

/// Relies on sled::Tree::get: returns the value bound to the key, or `None`
/// when the key is absent.
#[verifier::external_body]
fn tree_get(t: &sled::Tree, key: &[u8]) -> (r: Result<Option<Vec<u8>>, sled::Error>)
    ensures
        r matches Ok(v) ==> match v {
            Some(b) => tree_entries(*t).contains_key(key@) && tree_entries(*t)[key@] == b@,
            None => !tree_entries(*t).contains_key(key@),
        },
{
    match t.get(key) {
        Ok(Some(ivec)) => Ok(Some(ivec.to_vec())),
        Ok(None) => Ok(None),
        Err(e) => Err(e),
    }
}

/// Relies on sled::Tree::len: the number of entries in the tree.
#[verifier::external_body]
fn tree_len(t: &sled::Tree) -> (r: usize)
    ensures
        r == tree_entries(*t).dom().len(),
{
    t.len()
}

/// Relies on sled::Db::flush: forces pending writes to disk; the contents
/// are unchanged.
#[verifier::external_body]
fn db_flush(db: &sled::Db) -> (r: Result<usize, sled::Error>)
{
    db.flush()
}

/// Relies on sled::Error's Display impl for a human-readable message.
#[verifier::external_body]
fn sled_error_message(e: &sled::Error) -> (r: String)
{
    format!("{}", e)
}

fn db_error(e: sled::Error) -> (r: LedgerError)
    ensures
        r matches LedgerError::DatabaseError(_),
{
    LedgerError::DatabaseError(sled_error_message(&e))
}

/// The blocks-tree key of a height: 8 big-endian bytes, so that height
/// order is lexicographic.
pub open spec fn height_key(h: u64) -> Seq<u8> {
    spec_u64_to_be_bytes(h)
}

/// The meta-tree key under which the latest height is kept.
pub closed spec fn latest_height_key() -> Seq<u8> {
    "latest_height".spec_bytes()
}

/// The ASCII code of a nibble's lowercase hex digit.
pub open spec fn hex_ascii_of_nibble(n: u8) -> u8
    recommends
        n < 16,
{
    if n < 10 {
        (48 + n) as u8
    } else {
        (87 + n) as u8
    }
}

/// The ASCII lowercase hex rendering of a byte sequence.
pub open spec fn spec_hex_ascii(bytes: Seq<u8>) -> Seq<u8> {
    Seq::new(
        bytes.len() * 2,
        |i: int|
            if i % 2 == 0 {
                hex_ascii_of_nibble(bytes[i / 2] / 16)
            } else {
                hex_ascii_of_nibble(bytes[i / 2] % 16)
            },
    )
}

/// The blocks-tree alias key of a block hash: ASCII `hash:0x` then the hex
/// digits. Its length (71) never collides with a height key's (8).
pub closed spec fn hash_alias_key(hash: Seq<u8>) -> Seq<u8> {
    "hash:0x".spec_bytes() + spec_hex_ascii(hash)
}

fn latest_key_bytes() -> (r: Vec<u8>)
    ensures
        r@ == latest_height_key(),
{
    copy_bytes("latest_height".as_bytes())
}

fn hash_alias_key_bytes(hash: &Vec<u8>) -> (r: Vec<u8>)
    ensures
        r@ == hash_alias_key(hash@),
{
    let mut out = copy_bytes("hash:0x".as_bytes());
    let ghost prefix = out@;
    let mut i: usize = 0;
    while i < hash.len()
        invariant
            i <= hash@.len(),
            prefix == "hash:0x".spec_bytes(),
            out@ == prefix + spec_hex_ascii(hash@.subrange(0, i as int)),
        decreases hash@.len() - i,
    {
        let b = hash[i];
        let hi = b / 16;
        let lo = b % 16;
        out.push(if hi < 10 { 48 + hi } else { 87 + hi });
        out.push(if lo < 10 { 48 + lo } else { 87 + lo });
        proof {
            assert(out@ =~= prefix + spec_hex_ascii(hash@.subrange(0, i + 1)));
        }
        i = i + 1;
    }
    proof {
        assert(hash@.subrange(0, hash@.len() as int) =~= hash@);
    }
    out
}

/// What a read of an account from a raw accounts map returns: the decoded
/// record, the fresh zero account for an unknown address, or `None` on a
/// corrupt record (undecodable, or its address differs from its key).
pub open spec fn spec_map_read_account(m: Map<Seq<u8>, Seq<u8>>, address: Seq<u8>) -> Option<
    AccountView,
> {
    if m.contains_key(address) {
        match spec_decode_account(m[address]) {
            Some(a) => if a.address == address {
                Some(a)
            } else {
                None
            },
            None => None,
        }
    } else {
        Some(AccountView::zero_account(address))
    }
}

/// The transaction map after storing each of `ts` in order, keyed by its
/// frozen hash; a later duplicate hash overwrites an earlier one.
pub open spec fn spec_txs_stored(m: Map<Seq<u8>, Seq<u8>>, ts: Seq<TxView>) -> Map<Seq<u8>, Seq<u8>>
    decreases ts.len(),
{
    if ts.len() == 0 {
        m
    } else {
        spec_txs_stored(m.insert(ts[0].hash, spec_encode_tx(ts[0])), ts.drop_first())
    }
}

pub proof fn lemma_txs_stored_snoc(m: Map<Seq<u8>, Seq<u8>>, ts: Seq<TxView>, t: TxView)
    ensures
        spec_txs_stored(m, ts.push(t)) == spec_txs_stored(m, ts).insert(
            t.hash,
            spec_encode_tx(t),
        ),
    decreases ts.len(),
{
    reveal_with_fuel(spec_txs_stored, 2);
    if ts.len() == 0 {
        assert(ts.push(t)[0] == t);
        assert(ts.push(t).drop_first() =~= Seq::<TxView>::empty());
    } else {
        assert(ts.push(t)[0] == ts[0]);
        assert(ts.push(t).drop_first() =~= ts.drop_first().push(t));
        lemma_txs_stored_snoc(m.insert(ts[0].hash, spec_encode_tx(ts[0])), ts.drop_first(), t);
    }
}

/// The persistent ledger state.
pub struct Ledger {
    db: sled::Db,
    blocks: sled::Tree,
    accounts: sled::Tree,
    txs: sled::Tree,
    meta: sled::Tree,
}

/// Relies on sled::open and sled::Db::open_tree: opens (or creates) the
/// database at `path` and its four named trees. What an existing database
/// holds is whatever is on disk, so nothing is stated of the contents.
#[verifier::external_body]
fn open_ledger_at(path: &str) -> (r: Result<Ledger, sled::Error>)
{
    let db = sled::open(path)?;
    let blocks = db.open_tree("blocks")?;
    let accounts = db.open_tree("accounts")?;
    let txs = db.open_tree("transactions")?;
    let meta = db.open_tree("meta")?;
    Ok(Ledger { db, blocks, accounts, txs, meta })
}

/// Relies on sled::Config::temporary and sled::Db::open_tree: a temporary
/// database is created fresh, so each of its trees starts empty.
#[verifier::external_body]
fn open_temp_ledger() -> (r: Result<Ledger, sled::Error>)
    ensures
        r matches Ok(l) ==> l.blocks_map() == empty_bytes_map(),
        r matches Ok(l) ==> l.accounts_map() == empty_bytes_map(),
        r matches Ok(l) ==> l.txs_map() == empty_bytes_map(),
        r matches Ok(l) ==> l.meta_map() == empty_bytes_map(),
{
    let config = sled::Config::new().temporary(true);
    let db = config.open()?;
    let blocks = db.open_tree("blocks")?;
    let accounts = db.open_tree("accounts")?;
    let txs = db.open_tree("transactions")?;
    let meta = db.open_tree("meta")?;
    Ok(Ledger { db, blocks, accounts, txs, meta })
}

impl Ledger {
    pub closed spec fn blocks_map(self) -> Map<Seq<u8>, Seq<u8>> {
        tree_entries(self.blocks)
    }

    pub closed spec fn accounts_map(self) -> Map<Seq<u8>, Seq<u8>> {
        tree_entries(self.accounts)
    }

    pub closed spec fn txs_map(self) -> Map<Seq<u8>, Seq<u8>> {
        tree_entries(self.txs)
    }

    pub closed spec fn meta_map(self) -> Map<Seq<u8>, Seq<u8>> {
        tree_entries(self.meta)
    }

    /// The recorded latest height: the meta entry read big-endian, or 0
    /// when none was written yet.
    pub open spec fn spec_latest_height(self) -> u64 {
        if self.meta_map().contains_key(latest_height_key()) {
            spec_u64_from_be_bytes(self.meta_map()[latest_height_key()])
        } else {
            0
        }
    }

    /// The block stored at a height, if present and decodable.
    pub open spec fn spec_block_at(self, h: u64) -> Option<BlockView> {
        if self.blocks_map().contains_key(height_key(h)) {
            spec_decode_block(self.blocks_map()[height_key(h)])
        } else {
            None
        }
    }

    /// The transaction stored under a hash, if present and decodable.
    pub open spec fn spec_tx_at(self, hash: Seq<u8>) -> Option<TxView> {
        if self.txs_map().contains_key(hash) {
            spec_decode_tx(self.txs_map()[hash])
        } else {
            None
        }
    }

    /// What a read of an account returns: the decoded record, the fresh
    /// zero account for an unknown address, or `None` on a corrupt record.
    /// A record whose address differs from its key is corrupt.
    pub open spec fn spec_read_account(self, address: Seq<u8>) -> Option<AccountView> {
        spec_map_read_account(self.accounts_map(), address)
    }

    /// The blocks, transactions and meta trees are unchanged between two
    /// states.
    pub open spec fn same_chain_state(self, other: Ledger) -> bool {
        &&& self.blocks_map() == other.blocks_map()
        &&& self.txs_map() == other.txs_map()
        &&& self.meta_map() == other.meta_map()
    }

    /// Opens or creates the on-disk ledger at `path`. An existing database
    /// holds whatever was persisted before.
    pub fn new(path: &str) -> (r: Result<Ledger, LedgerError>)
    {
        match open_ledger_at(path) {
            Ok(l) => Ok(l),
            Err(e) => Err(db_error(e)),
        }
    }

    /// A fresh, empty, temporary ledger.
    pub fn in_memory() -> (r: Result<Ledger, LedgerError>)
        ensures
            r matches Ok(l) ==> l.blocks_map() == empty_bytes_map() && l.accounts_map()
                == empty_bytes_map() && l.txs_map() == empty_bytes_map() && l.meta_map()
                == empty_bytes_map(),
    {
        match open_temp_ledger() {
            Ok(l) => Ok(l),
            Err(e) => Err(db_error(e)),
        }
    }

    fn set_latest_height(&mut self, height: u64) -> (r: Result<(), LedgerError>)
        ensures
            match r {
                Ok(_) => final(self).meta_map() == old(self).meta_map().insert(
                    latest_height_key(),
                    spec_u64_to_be_bytes(height),
                ) && final(self).blocks_map() == old(self).blocks_map()
                    && final(self).txs_map() == old(self).txs_map()
                    && final(self).accounts_map() == old(self).accounts_map(),
                Err(e) => e matches LedgerError::DatabaseError(_) && final(self).blocks_map()
                    == old(self).blocks_map() && final(self).txs_map() == old(self).txs_map()
                    && final(self).accounts_map() == old(self).accounts_map() && final(self).meta_map().remove(latest_height_key()) == old(self).meta_map().remove(
                    latest_height_key(),
                ),
            },
    {
        let key = latest_key_bytes();
        let value = u64_to_be_bytes(height);
        match tree_insert(&mut self.meta, key.as_slice(), value.as_slice()) {
            Ok(_) => Ok(()),
            Err(e) => Err(db_error(e)),
        }
    }

    /// The recorded latest height; 0 when nothing was written yet. A meta
    /// record of the wrong width is reported as corrupt.
    pub fn get_latest_height(&self) -> (r: Result<u64, LedgerError>)
        ensures
            match r {
                Ok(h) => h == self.spec_latest_height() && (self.meta_map().contains_key(
                    latest_height_key(),
                ) ==> self.meta_map()[latest_height_key()].len() == 8),
                Err(LedgerError::SerializationError(_)) => self.meta_map().contains_key(
                    latest_height_key(),
                ) && self.meta_map()[latest_height_key()].len() != 8,
                Err(LedgerError::DatabaseError(_)) => true,
                Err(_) => false,
            },
    {
        let key = latest_key_bytes();
        match tree_get(&self.meta, key.as_slice()) {
            Ok(Some(value)) => {
                if value.len() != 8 {
                    return Err(
                        LedgerError::SerializationError("latest height record is corrupt".to_owned()),
                    );
                }
                Ok(u64_from_be_bytes(value.as_slice()))
            },
            Ok(None) => Ok(0),
            Err(e) => Err(db_error(e)),
        }
    }

    /// Stores one transaction under its frozen hash.
    pub fn store_transaction(&mut self, tx: &Transaction) -> (r: Result<(), LedgerError>)
        requires
            tx@.wf(),
        ensures
            match r {
                Ok(_) => final(self).txs_map() == old(self).txs_map().insert(
                    tx@.hash,
                    spec_encode_tx(tx@),
                ) && final(self).blocks_map() == old(self).blocks_map()
                    && final(self).meta_map() == old(self).meta_map()
                    && final(self).accounts_map() == old(self).accounts_map(),
                Err(e) => e matches LedgerError::DatabaseError(_) && final(self).blocks_map()
                    == old(self).blocks_map() && final(self).meta_map() == old(self).meta_map()
                    && final(self).accounts_map() == old(self).accounts_map() && final(self).txs_map().remove(tx@.hash) == old(self).txs_map().remove(tx@.hash),
            },
    {
        let value = encode_transaction(tx);
        match tree_insert(&mut self.txs, tx.hash.as_slice(), value.as_slice()) {
            Ok(_) => Ok(()),
            Err(e) => Err(db_error(e)),
        }
    }

    /// The transaction stored under a hash.
    pub fn get_transaction(&self, hash: &Vec<u8>) -> (r: Result<Transaction, LedgerError>)
        requires
            hash@.len() == 32,
        ensures
            match r {
                Ok(t) => t@.wf() && self.spec_tx_at(hash@) == Some(t@),
                Err(LedgerError::BlockNotFound(_)) => !self.txs_map().contains_key(hash@),
                Err(LedgerError::SerializationError(_)) => self.txs_map().contains_key(hash@)
                    && self.spec_tx_at(hash@) is None,
                Err(LedgerError::DatabaseError(_)) => true,
                Err(_) => false,
            },
    {
        match tree_get(&self.txs, hash.as_slice()) {
            Ok(Some(value)) => match decode_transaction(&value) {
                Some(t) => Ok(t),
                None => Err(
                    LedgerError::SerializationError("transaction record is corrupt".to_owned()),
                ),
            },
            Ok(None) => Err(LedgerError::BlockNotFound(hash_hex_message(hash))),
            Err(e) => Err(db_error(e)),
        }
    }

    /// The account stored at an address, or a fresh zero account when the
    /// address is unknown. Reads never fail with `AccountNotFound`.
    pub fn get_account(&self, address: &Vec<u8>) -> (r: Result<Account, LedgerError>)
        requires
            address@.len() == 20,
        ensures
            match r {
                Ok(a) => a@.wf() && a@.address == address@ && self.spec_read_account(address@)
                    == Some(a@),
                Err(LedgerError::SerializationError(_)) => self.spec_read_account(
                    address@,
                ) is None,
                Err(LedgerError::DatabaseError(_)) => true,
                Err(_) => false,
            },
    {
        match tree_get(&self.accounts, address.as_slice()) {
            Ok(Some(value)) => match decode_account(&value) {
                Some(a) => {
                    if crate::bytesutil::bytes_eq(a.address.as_slice(), address.as_slice()) {
                        Ok(a)
                    } else {
                        Err(
                            LedgerError::SerializationError(
                                "account record is corrupt".to_owned(),
                            ),
                        )
                    }
                },
                None => Err(
                    LedgerError::SerializationError("account record is corrupt".to_owned()),
                ),
            },
            Ok(None) => Ok(Account::new(copy_bytes(address.as_slice()))),
            Err(e) => Err(db_error(e)),
        }
    }

    /// Writes an account record at its address.
    pub fn update_account(&mut self, account: &Account) -> (r: Result<(), LedgerError>)
        requires
            account@.wf(),
        ensures
            match r {
                Ok(_) => final(self).accounts_map() == old(self).accounts_map().insert(
                    account@.address,
                    spec_encode_account(account@),
                ) && old(self).same_chain_state(*final(self)),
                Err(e) => e matches LedgerError::DatabaseError(_) && old(self).same_chain_state(
                    *final(self),
                ) && final(self).accounts_map().remove(account@.address) == old(self).accounts_map().remove(account@.address),
            },
    {
        let value = encode_account(account);
        match tree_insert(&mut self.accounts, account.address.as_slice(), value.as_slice()) {
            Ok(_) => Ok(()),
            Err(e) => Err(db_error(e)),
        }
    }

    /// The balance of an address; zero for an unknown address.
    pub fn get_balance(&self, address: &Vec<u8>) -> (r: Result<u64, LedgerError>)
        requires
            address@.len() == 20,
        ensures
            match r {
                Ok(b) => self.spec_read_account(address@) matches Some(a) && b == a.balance,
                Err(LedgerError::SerializationError(_)) => self.spec_read_account(
                    address@,
                ) is None,
                Err(LedgerError::DatabaseError(_)) => true,
                Err(_) => false,
            },
    {
        let account = self.get_account(address)?;
        Ok(account.balance)
    }

    /// The number of stored account records.
    pub fn get_total_accounts(&self) -> (r: u64)
        ensures
            r == self.accounts_map().dom().len(),
    {
        tree_len(&self.accounts) as u64
    }

    /// The number of stored transactions.
    pub fn get_total_transactions(&self) -> (r: u64)
        ensures
            r == self.txs_map().dom().len(),
    {
        tree_len(&self.txs) as u64
    }
}

fn hash_hex_message(hash: &Vec<u8>) -> (r: String)
    requires
        hash@.len() == 32,
{
    crate::crypto::hash_to_hex(hash)
}


/// The sender's account after paying a transaction: cost debited, nonce
/// advanced.
pub open spec fn spec_sender_after(sender: AccountView, t: TxView) -> AccountView {
    AccountView {
        address: sender.address,
        balance: (sender.balance - t.spec_total_cost()) as u64,
        nonce: (sender.nonce + 1) as u64,
        code_hash: sender.code_hash,
        storage_root: sender.storage_root,
    }
}

/// The recipient's account after a transaction: the amount credited.
pub open spec fn spec_recipient_after(recipient: AccountView, t: TxView) -> AccountView {
    AccountView {
        address: recipient.address,
        balance: (recipient.balance + t.amount) as u64,
        nonce: recipient.nonce,
        code_hash: recipient.code_hash,
        storage_root: recipient.storage_root,
    }
}

/// The pure state transition of one transaction over the sender and
/// recipient records read before any write. Two identical inputs yield
/// identical outputs. A mismatched nonce, a cost above the balance, and an
/// increment or credit that would not fit a u64 are rejected in that order.
pub open spec fn spec_apply_result(sender: AccountView, recipient: AccountView, t: TxView) -> Result<
    (AccountView, AccountView),
    LedgerError,
> {
    if sender.nonce != t.nonce {
        Err(LedgerError::InvalidNonce)
    } else if (sender.balance as int) < t.spec_total_cost() {
        Err(LedgerError::InsufficientBalance)
    } else if sender.nonce == u64::MAX || recipient.balance + t.amount > u64::MAX {
        Err(LedgerError::BalanceOverflow)
    } else {
        Ok((spec_sender_after(sender, t), spec_recipient_after(recipient, t)))
    }
}

/// The pure state transition of a direct transfer: amount debited, sender
/// nonce advanced, amount credited. No nonce is checked.
pub open spec fn spec_transfer_result(
    sender: AccountView,
    recipient: AccountView,
    amount: u64,
) -> Result<(AccountView, AccountView), LedgerError> {
    if sender.balance < amount {
        Err(LedgerError::InsufficientBalance)
    } else if sender.nonce == u64::MAX || recipient.balance + amount > u64::MAX {
        Err(LedgerError::BalanceOverflow)
    } else {
        Ok(
            (
                AccountView {
                    address: sender.address,
                    balance: (sender.balance - amount) as u64,
                    nonce: (sender.nonce + 1) as u64,
                    code_hash: sender.code_hash,
                    storage_root: sender.storage_root,
                },
                AccountView {
                    address: recipient.address,
                    balance: (recipient.balance + amount) as u64,
                    nonce: recipient.nonce,
                    code_hash: recipient.code_hash,
                    storage_root: recipient.storage_root,
                },
            ),
        )
    }
}

/// The accounts map after one transaction is applied to it: when both
/// records read back and the pure transition succeeds, the sender's and
/// recipient's new records are written in that order; on any failure the
/// map is unchanged (the transaction is skipped).
pub open spec fn spec_apply_one(m: Map<Seq<u8>, Seq<u8>>, t: TxView) -> Map<Seq<u8>, Seq<u8>> {
    match spec_map_read_account(m, t.from) {
        Some(s) => match spec_map_read_account(m, t.to) {
            Some(rc) => match spec_apply_result(s, rc, t) {
                Ok(pair) => m.insert(t.from, spec_encode_account(pair.0)).insert(
                    t.to,
                    spec_encode_account(pair.1),
                ),
                Err(_) => m,
            },
            None => m,
        },
        None => m,
    }
}

/// The accounts map after a batch of transactions is applied in order,
/// failed ones skipped.
pub open spec fn spec_apply_batch(m: Map<Seq<u8>, Seq<u8>>, ts: Seq<TxView>) -> Map<
    Seq<u8>,
    Seq<u8>,
>
    decreases ts.len(),
{
    if ts.len() == 0 {
        m
    } else {
        spec_apply_batch(spec_apply_one(m, ts[0]), ts.drop_first())
    }
}

pub proof fn lemma_apply_batch_snoc(m: Map<Seq<u8>, Seq<u8>>, ts: Seq<TxView>, t: TxView)
    ensures
        spec_apply_batch(m, ts.push(t)) == spec_apply_one(spec_apply_batch(m, ts), t),
    decreases ts.len(),
{
    reveal_with_fuel(spec_apply_batch, 2);
    if ts.len() == 0 {
        assert(ts.push(t)[0] == t);
        assert(ts.push(t).drop_first() =~= Seq::<TxView>::empty());
    } else {
        assert(ts.push(t)[0] == ts[0]);
        assert(ts.push(t).drop_first() =~= ts.drop_first().push(t));
        lemma_apply_batch_snoc(spec_apply_one(m, ts[0]), ts.drop_first(), t);
    }
}

fn digit_str(d: u8) -> (r: &'static str)
{
    match d {
        0 => "0",
        1 => "1",
        2 => "2",
        3 => "3",
        4 => "4",
        5 => "5",
        6 => "6",
        7 => "7",
        8 => "8",
        _ => "9",
    }
}

fn u64_to_dec_string(x: u64) -> (r: String)
{
    let mut digits: Vec<u8> = Vec::new();
    let mut v = x;
    if v == 0 {
        digits.push(0u8);
    }
    while v > 0
        decreases v,
    {
        digits.push((v % 10) as u8);
        v = v / 10;
    }
    let mut s = String::new();
    let mut i = digits.len();
    while i > 0
        invariant
            i <= digits@.len(),
        decreases i,
    {
        i = i - 1;
        s.append(digit_str(digits[i]));
    }
    s
}

impl Ledger {
    /// Both the chain trees and the accounts tree are unchanged.
    pub open spec fn same_state(self, other: Ledger) -> bool {
        &&& self.same_chain_state(other)
        &&& self.accounts_map() == other.accounts_map()
    }

    /// The block stored at a height.
    pub fn get_block(&self, height: u64) -> (r: Result<Block, LedgerError>)
        ensures
            match r {
                Ok(b) => b@.wf() && self.spec_block_at(height) == Some(b@),
                Err(LedgerError::BlockNotFound(_)) => !self.blocks_map().contains_key(
                    height_key(height),
                ),
                Err(LedgerError::SerializationError(_)) => self.blocks_map().contains_key(
                    height_key(height),
                ) && self.spec_block_at(height) is None,
                Err(LedgerError::DatabaseError(_)) => true,
                Err(_) => false,
            },
    {
        let key = u64_to_be_bytes(height);
        match tree_get(&self.blocks, key.as_slice()) {
            Ok(Some(value)) => match decode_block(&value) {
                Some(b) => Ok(b),
                None => Err(
                    LedgerError::SerializationError("block record is corrupt".to_owned()),
                ),
            },
            Ok(None) => {
                let mut m = "height: ".to_owned();
                let dec = u64_to_dec_string(height);
                m.append(dec.as_str());
                Err(LedgerError::BlockNotFound(m))
            },
            Err(e) => Err(db_error(e)),
        }
    }

    /// The block a hash aliases: the alias entry names the height, and the
    /// block stored there is returned.
    pub fn get_block_by_hash(&self, hash: &Vec<u8>) -> (r: Result<Block, LedgerError>)
        requires
            hash@.len() == 32,
        ensures
            match r {
                Ok(b) => b@.wf() && self.blocks_map().contains_key(hash_alias_key(hash@))
                    && self.blocks_map()[hash_alias_key(hash@)].len() == 8
                    && self.spec_block_at(
                    spec_u64_from_be_bytes(self.blocks_map()[hash_alias_key(hash@)]),
                ) == Some(b@),
                Err(LedgerError::BlockNotFound(_)) => !self.blocks_map().contains_key(
                    hash_alias_key(hash@),
                ) || (self.blocks_map()[hash_alias_key(hash@)].len() == 8
                    && !self.blocks_map().contains_key(
                    height_key(spec_u64_from_be_bytes(self.blocks_map()[hash_alias_key(hash@)])),
                )),
                Err(LedgerError::SerializationError(_)) => self.blocks_map().contains_key(
                    hash_alias_key(hash@),
                ) && (self.blocks_map()[hash_alias_key(hash@)].len() != 8 || self.spec_block_at(
                    spec_u64_from_be_bytes(self.blocks_map()[hash_alias_key(hash@)]),
                ) is None),
                Err(LedgerError::DatabaseError(_)) => true,
                Err(_) => false,
            },
    {
        let alias = hash_alias_key_bytes(hash);
        match tree_get(&self.blocks, alias.as_slice()) {
            Ok(Some(value)) => {
                if value.len() != 8 {
                    return Err(
                        LedgerError::SerializationError("hash alias record is corrupt".to_owned()),
                    );
                }
                let height = u64_from_be_bytes(value.as_slice());
                self.get_block(height)
            },
            Ok(None) => {
                let m = crate::crypto::hash_to_hex(hash);
                Err(LedgerError::BlockNotFound(m))
            },
            Err(e) => Err(db_error(e)),
        }
    }

    /// The block at the recorded latest height.
    pub fn get_latest_block(&self) -> (r: Result<Block, LedgerError>)
        ensures
            match r {
                Ok(b) => b@.wf() && self.spec_block_at(self.spec_latest_height()) == Some(b@),
                Err(LedgerError::BlockNotFound(_)) => !self.blocks_map().contains_key(
                    height_key(self.spec_latest_height()),
                ),
                Err(LedgerError::SerializationError(_)) => (self.meta_map().contains_key(
                    latest_height_key(),
                ) && self.meta_map()[latest_height_key()].len() != 8) || (
                self.blocks_map().contains_key(height_key(self.spec_latest_height()))
                    && self.spec_block_at(self.spec_latest_height()) is None),
                Err(LedgerError::DatabaseError(_)) => true,
                Err(_) => false,
            },
    {
        match self.get_latest_height() {
            Ok(height) => self.get_block(height),
            Err(e) => Err(e),
        }
    }

    /// Stores a block at its height, writes the hash alias, stores every
    /// contained transaction, records the height as latest, and flushes.
    pub fn store_block(&mut self, block: &Block) -> (r: Result<(), LedgerError>)
        requires
            block@.wf(),
        ensures
            r matches Ok(_) ==> {
                &&& final(self).blocks_map() == old(self).blocks_map().insert(
                    height_key(block@.header.height),
                    spec_encode_block(block@),
                ).insert(hash_alias_key(block@.hash), spec_u64_to_be_bytes(block@.header.height))
                &&& final(self).txs_map() == spec_txs_stored(
                    old(self).txs_map(),
                    block@.transactions,
                )
                &&& final(self).meta_map() == old(self).meta_map().insert(
                    latest_height_key(),
                    spec_u64_to_be_bytes(block@.header.height),
                )
                &&& final(self).accounts_map() == old(self).accounts_map()
            },
            r matches Err(e) ==> e matches LedgerError::DatabaseError(_) && final(self).accounts_map() == old(self).accounts_map(),
    {
        let value = encode_block(block);
        let key = u64_to_be_bytes(block.header.height);
        match tree_insert(&mut self.blocks, key.as_slice(), value.as_slice()) {
            Ok(_) => {},
            Err(e) => {
                return Err(db_error(e));
            },
        }
        let alias = hash_alias_key_bytes(&block.hash);
        let height_bytes = u64_to_be_bytes(block.header.height);
        match tree_insert(&mut self.blocks, alias.as_slice(), height_bytes.as_slice()) {
            Ok(_) => {},
            Err(e) => {
                return Err(db_error(e));
            },
        }
        let ghost mid = *self;
        let mut i: usize = 0;
        while i < block.transactions.len()
            invariant
                i <= block.transactions@.len(),
                block@.wf(),
                block@.transactions == views_of_txs(block.transactions@),
                self.blocks_map() == mid.blocks_map(),
                self.meta_map() == mid.meta_map(),
                self.accounts_map() == mid.accounts_map(),
                mid.accounts_map() == old(self).accounts_map(),
                self.txs_map() == spec_txs_stored(
                    mid.txs_map(),
                    block@.transactions.take(i as int),
                ),
            decreases block.transactions@.len() - i,
        {
            proof {
                assert(block@.transactions[i as int] == block.transactions@[i as int]@);
                assert(block@.transactions[i as int].wf());
            }
            match self.store_transaction(&block.transactions[i]) {
                Ok(_) => {},
                Err(e) => {
                    return Err(e);
                },
            }
            proof {
                lemma_txs_stored_snoc(
                    mid.txs_map(),
                    block@.transactions.take(i as int),
                    block@.transactions[i as int],
                );
                assert(block@.transactions.take(i + 1) =~= block@.transactions.take(
                    i as int,
                ).push(block@.transactions[i as int]));
            }
            i = i + 1;
        }
        proof {
            assert(block@.transactions.take(block.transactions@.len() as int)
                =~= block@.transactions);
        }
        match self.set_latest_height(block.header.height) {
            Ok(_) => {},
            Err(e) => {
                return Err(e);
            },
        }
        match db_flush(&self.db) {
            Ok(_) => Ok(()),
            Err(e) => Err(db_error(e)),
        }
    }

    /// Stores the genesis block and records height 0 as latest.
    pub fn init_genesis(&mut self, genesis: &Block) -> (r: Result<(), LedgerError>)
        requires
            genesis@.wf(),
        ensures
            r matches Ok(_) ==> {
                &&& final(self).blocks_map() == old(self).blocks_map().insert(
                    height_key(genesis@.header.height),
                    spec_encode_block(genesis@),
                ).insert(
                    hash_alias_key(genesis@.hash),
                    spec_u64_to_be_bytes(genesis@.header.height),
                )
                &&& final(self).txs_map() == spec_txs_stored(
                    old(self).txs_map(),
                    genesis@.transactions,
                )
                &&& final(self).meta_map() == old(self).meta_map().insert(
                    latest_height_key(),
                    spec_u64_to_be_bytes(0),
                )
                &&& final(self).accounts_map() == old(self).accounts_map()
            },
            (r matches Ok(_) && old(self).blocks_map() == empty_bytes_map() && old(self).txs_map() == empty_bytes_map() && old(self).meta_map() == empty_bytes_map()
                && genesis@.header.height == 0 && genesis@.header.merkle_root
                == spec_merkle_root(spec_tx_hashes(genesis@.transactions))) ==> final(self).chain_ok() && final(self).spec_latest_height() == 0 && final(self).spec_block_at(0)
                == Some(genesis@),
            r matches Err(e) ==> e matches LedgerError::DatabaseError(_) && final(self).accounts_map() == old(self).accounts_map(),
    {
        match self.store_block(genesis) {
            Ok(_) => {},
            Err(e) => {
                return Err(e);
            },
        }
        match self.set_latest_height(0) {
            Ok(_) => {},
            Err(e) => {
                return Err(e);
            },
        }
        proof {
            assert(final(self).meta_map() =~= old(self).meta_map().insert(
                latest_height_key(),
                spec_u64_to_be_bytes(0),
            ));
            if old(self).blocks_map() == empty_bytes_map() && old(self).txs_map()
                == empty_bytes_map() && old(self).meta_map() == empty_bytes_map()
                && genesis@.header.height == 0 && genesis@.header.merkle_root
                == spec_merkle_root(spec_tx_hashes(genesis@.transactions)) {
                lemma_genesis_establishes_chain(*old(self), *self, genesis@);
            }
        }
        Ok(())
    }

    /// Applies one transaction to the account state, exactly as
    /// `spec_apply_result` of the two records read before any write.
    pub fn apply_transaction(&mut self, tx: &Transaction) -> (r: Result<(), LedgerError>)
        requires
            tx@.wf(),
        ensures
            match r {
                Ok(_) => old(self).spec_read_account(tx@.from) matches Some(s) && old(self).spec_read_account(tx@.to) matches Some(rc) && spec_apply_result(
                    s,
                    rc,
                    tx@,
                ) matches Ok(pair) && final(self).accounts_map() == old(self).accounts_map().insert(tx@.from, spec_encode_account(pair.0)).insert(
                    tx@.to,
                    spec_encode_account(pair.1),
                ) && old(self).same_chain_state(*final(self)),
                Err(LedgerError::InvalidNonce) => old(self).spec_read_account(
                    tx@.from,
                ) matches Some(s) && s.nonce != tx@.nonce && old(self).same_state(*final(self)),
                Err(LedgerError::InsufficientBalance) => old(self).spec_read_account(
                    tx@.from,
                ) matches Some(s) && s.nonce == tx@.nonce && (s.balance as int)
                    < tx@.spec_total_cost() && old(self).same_state(*final(self)),
                Err(LedgerError::BalanceOverflow) => old(self).spec_read_account(
                    tx@.from,
                ) matches Some(s) && old(self).spec_read_account(tx@.to) matches Some(rc)
                    && spec_apply_result(s, rc, tx@) == Err::<
                    (AccountView, AccountView),
                    LedgerError,
                >(LedgerError::BalanceOverflow) && old(self).same_state(*final(self)),
                Err(LedgerError::SerializationError(_)) => (old(self).spec_read_account(
                    tx@.from,
                ) is None || old(self).spec_read_account(tx@.to) is None) && old(self).same_state(*final(self)),
                Err(LedgerError::DatabaseError(_)) => old(self).same_chain_state(
                    *final(self),
                ) && final(self).accounts_map().remove(tx@.from).remove(tx@.to) == old(self).accounts_map().remove(tx@.from).remove(tx@.to),
                Err(_) => false,
            },
    {
        let sender = match self.get_account(&tx.from) {
            Ok(a) => a,
            Err(e) => {
                return Err(e);
            },
        };
        if sender.nonce != tx.nonce {
            return Err(LedgerError::InvalidNonce);
        }
        let cost = match tx.total_cost() {
            Some(c) => c,
            None => {
                return Err(LedgerError::InsufficientBalance);
            },
        };
        if sender.balance < cost {
            return Err(LedgerError::InsufficientBalance);
        }
        let recipient = match self.get_account(&tx.to) {
            Ok(a) => a,
            Err(e) => {
                return Err(e);
            },
        };
        if sender.nonce == u64::MAX {
            return Err(LedgerError::BalanceOverflow);
        }
        let credited = match recipient.balance.checked_add(tx.amount) {
            Some(b) => b,
            None => {
                return Err(LedgerError::BalanceOverflow);
            },
        };
        let sender_after = Account {
            address: sender.address,
            balance: sender.balance - cost,
            nonce: sender.nonce + 1,
            code_hash: sender.code_hash,
            storage_root: sender.storage_root,
        };
        let recipient_after = Account {
            address: recipient.address,
            balance: credited,
            nonce: recipient.nonce,
            code_hash: recipient.code_hash,
            storage_root: recipient.storage_root,
        };
        match self.update_account(&sender_after) {
            Ok(_) => {},
            Err(e) => {
                return Err(e);
            },
        }
        match self.update_account(&recipient_after) {
            Ok(_) => {},
            Err(e) => {
                proof {
                    let m0 = old(self).accounts_map();
                    let m1 = m0.insert(tx@.from, spec_encode_account(sender_after@));
                    assert(recipient_after@.address == tx@.to);
                    assert(self.accounts_map().remove(tx@.to) == m1.remove(tx@.to));
                    assert(self.accounts_map().remove(tx@.to).remove(tx@.from) == m1.remove(
                        tx@.to,
                    ).remove(tx@.from));
                    assert(m1.remove(tx@.to).remove(tx@.from) =~= m0.remove(tx@.to).remove(
                        tx@.from,
                    ));
                    assert(self.accounts_map().remove(tx@.from).remove(tx@.to)
                        =~= self.accounts_map().remove(tx@.to).remove(tx@.from));
                    assert(m0.remove(tx@.from).remove(tx@.to) =~= m0.remove(tx@.to).remove(
                        tx@.from,
                    ));
                }
                return Err(e);
            },
        }
        proof {
            let s = old(self).spec_read_account(tx@.from).unwrap();
            let rc = old(self).spec_read_account(tx@.to).unwrap();
            assert(sender_after@ =~= spec_sender_after(s, tx@));
            assert(recipient_after@ =~= spec_recipient_after(rc, tx@));
        }
        Ok(())
    }

    /// Moves an amount between two accounts, advancing the sender's nonce.
    pub fn transfer(&mut self, from: &Vec<u8>, to: &Vec<u8>, amount: u64) -> (r: Result<
        (),
        LedgerError,
    >)
        requires
            from@.len() == 20,
            to@.len() == 20,
        ensures
            match r {
                Ok(_) => old(self).spec_read_account(from@) matches Some(s) && old(self).spec_read_account(to@) matches Some(rc) && spec_transfer_result(
                    s,
                    rc,
                    amount,
                ) matches Ok(pair) && final(self).accounts_map() == old(self).accounts_map().insert(from@, spec_encode_account(pair.0)).insert(
                    to@,
                    spec_encode_account(pair.1),
                ) && old(self).same_chain_state(*final(self)),
                Err(LedgerError::InsufficientBalance) => old(self).spec_read_account(
                    from@,
                ) matches Some(s) && s.balance < amount && old(self).same_state(*final(self)),
                Err(LedgerError::BalanceOverflow) => old(self).spec_read_account(
                    from@,
                ) matches Some(s) && old(self).spec_read_account(to@) matches Some(rc)
                    && spec_transfer_result(s, rc, amount) == Err::<
                    (AccountView, AccountView),
                    LedgerError,
                >(LedgerError::BalanceOverflow) && old(self).same_state(*final(self)),
                Err(LedgerError::SerializationError(_)) => (old(self).spec_read_account(
                    from@,
                ) is None || old(self).spec_read_account(to@) is None) && old(self).same_state(
                    *final(self),
                ),
                Err(LedgerError::DatabaseError(_)) => old(self).same_chain_state(
                    *final(self),
                ) && final(self).accounts_map().remove(from@).remove(to@) == old(self).accounts_map().remove(from@).remove(to@),
                Err(_) => false,
            },
    {
        let sender = match self.get_account(from) {
            Ok(a) => a,
            Err(e) => {
                return Err(e);
            },
        };
        let recipient = match self.get_account(to) {
            Ok(a) => a,
            Err(e) => {
                return Err(e);
            },
        };
        if sender.balance < amount {
            return Err(LedgerError::InsufficientBalance);
        }
        if sender.nonce == u64::MAX {
            return Err(LedgerError::BalanceOverflow);
        }
        let credited = match recipient.balance.checked_add(amount) {
            Some(b) => b,
            None => {
                return Err(LedgerError::BalanceOverflow);
            },
        };
        let sender_after = Account {
            address: sender.address,
            balance: sender.balance - amount,
            nonce: sender.nonce + 1,
            code_hash: sender.code_hash,
            storage_root: sender.storage_root,
        };
        let recipient_after = Account {
            address: recipient.address,
            balance: credited,
            nonce: recipient.nonce,
            code_hash: recipient.code_hash,
            storage_root: recipient.storage_root,
        };
        match self.update_account(&sender_after) {
            Ok(_) => {},
            Err(e) => {
                return Err(e);
            },
        }
        match self.update_account(&recipient_after) {
            Ok(_) => {},
            Err(e) => {
                proof {
                    let m0 = old(self).accounts_map();
                    let m1 = m0.insert(from@, spec_encode_account(sender_after@));
                    assert(recipient_after@.address == to@);
                    assert(self.accounts_map().remove(to@) == m1.remove(to@));
                    assert(self.accounts_map().remove(to@).remove(from@) == m1.remove(
                        to@,
                    ).remove(from@));
                    assert(m1.remove(to@).remove(from@) =~= m0.remove(to@).remove(from@));
                    assert(self.accounts_map().remove(from@).remove(to@)
                        =~= self.accounts_map().remove(to@).remove(from@));
                    assert(m0.remove(from@).remove(to@) =~= m0.remove(to@).remove(from@));
                }
                return Err(e);
            },
        }
        proof {
            let s = old(self).spec_read_account(from@).unwrap();
            let rc = old(self).spec_read_account(to@).unwrap();
            assert(spec_transfer_result(s, rc, amount) matches Ok(pair) && sender_after@
                =~= pair.0 && recipient_after@ =~= pair.1);
        }
        Ok(())
    }

    /// Credits an amount to an address, used during genesis bootstrap.
    pub fn mint(&mut self, address: &Vec<u8>, amount: u64) -> (r: Result<(), LedgerError>)
        requires
            address@.len() == 20,
        ensures
            match r {
                Ok(_) => old(self).spec_read_account(address@) matches Some(a)
                    && a.balance + amount <= u64::MAX && final(self).accounts_map() == old(self).accounts_map().insert(
                    address@,
                    spec_encode_account(
                        AccountView {
                            address: a.address,
                            balance: (a.balance + amount) as u64,
                            nonce: a.nonce,
                            code_hash: a.code_hash,
                            storage_root: a.storage_root,
                        },
                    ),
                ) && old(self).same_chain_state(*final(self)),
                Err(LedgerError::BalanceOverflow) => old(self).spec_read_account(
                    address@,
                ) matches Some(a) && a.balance + amount > u64::MAX && old(self).same_state(
                    *final(self),
                ),
                Err(LedgerError::SerializationError(_)) => old(self).spec_read_account(
                    address@,
                ) is None && old(self).same_state(*final(self)),
                Err(LedgerError::DatabaseError(_)) => old(self).same_chain_state(
                    *final(self),
                ) && final(self).accounts_map().remove(address@) == old(self).accounts_map().remove(address@),
                Err(_) => false,
            },
    {
        let account = match self.get_account(address) {
            Ok(a) => a,
            Err(e) => {
                return Err(e);
            },
        };
        let credited = match account.balance.checked_add(amount) {
            Some(b) => b,
            None => {
                return Err(LedgerError::BalanceOverflow);
            },
        };
        let account_after = Account {
            address: account.address,
            balance: credited,
            nonce: account.nonce,
            code_hash: account.code_hash,
            storage_root: account.storage_root,
        };
        match self.update_account(&account_after) {
            Ok(_) => {},
            Err(e) => {
                return Err(e);
            },
        }
        proof {
            let a = old(self).spec_read_account(address@).unwrap();
            assert(account_after@ =~= (AccountView {
                address: a.address,
                balance: (a.balance + amount) as u64,
                nonce: a.nonce,
                code_hash: a.code_hash,
                storage_root: a.storage_root,
            }));
        }
        Ok(())
    }
}


/// Facts about storing a list of transactions: old keys survive, every
/// stored transaction's hash is present, and every entry is either an old
/// one or the encoding of one of the stored transactions with that hash.
pub proof fn lemma_txs_stored_props(m: Map<Seq<u8>, Seq<u8>>, ts: Seq<TxView>)
    ensures
        forall|k: Seq<u8>| m.contains_key(k) ==> #[trigger] spec_txs_stored(m, ts).contains_key(
            k,
        ),
        forall|i: int| 0 <= i < ts.len() ==> spec_txs_stored(m, ts).contains_key(
            (#[trigger] ts[i]).hash,
        ),
        forall|k: Seq<u8>| #[trigger] spec_txs_stored(m, ts).contains_key(k) ==> ((
        m.contains_key(k) && spec_txs_stored(m, ts)[k] == m[k]) || (exists|i: int|
            0 <= i < ts.len() && (#[trigger] ts[i]).hash == k && spec_txs_stored(m, ts)[k]
                == spec_encode_tx(ts[i]))),
    decreases ts.len(),
{
    if ts.len() == 0 {
    } else {
        let m1 = m.insert(ts[0].hash, spec_encode_tx(ts[0]));
        let rest = ts.drop_first();
        lemma_txs_stored_props(m1, rest);
        assert(spec_txs_stored(m, ts) == spec_txs_stored(m1, rest));
        assert forall|i: int| 0 <= i < ts.len() implies spec_txs_stored(m, ts).contains_key(
            (#[trigger] ts[i]).hash,
        ) by {
            if i == 0 {
                assert(m1.contains_key(ts[0].hash));
            } else {
                assert(rest[i - 1] == ts[i]);
            }
        }
        assert forall|k: Seq<u8>| #[trigger] spec_txs_stored(m, ts).contains_key(k) implies ((
        m.contains_key(k) && spec_txs_stored(m, ts)[k] == m[k]) || (exists|i: int|
            0 <= i < ts.len() && (#[trigger] ts[i]).hash == k && spec_txs_stored(m, ts)[k]
                == spec_encode_tx(ts[i]))) by {
            if m1.contains_key(k) && spec_txs_stored(m1, rest)[k] == m1[k] {
                if k == ts[0].hash {
                    assert(ts[0].hash == k && spec_txs_stored(m, ts)[k] == spec_encode_tx(ts[0]));
                } else {
                    assert(m.contains_key(k) && spec_txs_stored(m, ts)[k] == m[k]);
                }
            } else {
                let j = choose|j: int|
                    0 <= j < rest.len() && (#[trigger] rest[j]).hash == k && spec_txs_stored(
                        m1,
                        rest,
                    )[k] == spec_encode_tx(rest[j]);
                assert(ts[j + 1] == rest[j]);
                assert(0 <= j + 1 < ts.len() && ts[j + 1].hash == k && spec_txs_stored(m, ts)[k]
                    == spec_encode_tx(ts[j + 1]));
            }
        }
    }
}

/// The shapes of the store's keys: a hash alias key is never 8 bytes long,
/// so it never collides with a height key.
pub proof fn lemma_key_shapes(hash: Seq<u8>)
    ensures
        hash_alias_key(hash).len() == 7 + 2 * hash.len(),
        latest_height_key().len() == 13,
{
    broadcast use vstd::string::is_ascii_spec_bytes;

    reveal_strlit("hash:0x");
    reveal_strlit("latest_height");
    assert(is_ascii("hash:0x"));
    assert(is_ascii("latest_height"));
    assert("hash:0x".spec_bytes().len() == 7);
    assert("latest_height".spec_bytes().len() == 13);
}

impl Ledger {
    /// The chain invariant: the recorded latest height is canonical, every
    /// height up to it holds a well-formed block of that height, no block
    /// sits above it, adjacent blocks are linked by hash, every transaction
    /// of every stored block is indexed, and every indexed transaction
    /// decodes to one whose frozen hash is its key.
    pub open spec fn chain_ok(self) -> bool {
        let latest = self.spec_latest_height();
        &&& self.meta_map().contains_key(latest_height_key())
        &&& self.meta_map()[latest_height_key()] == spec_u64_to_be_bytes(latest)
        &&& forall|h: u64|
            h <= latest ==> ((#[trigger] self.spec_block_at(h)) matches Some(b) && b.wf()
                && b.header.height == h)
        &&& forall|h: u64| h > latest ==> !self.blocks_map().contains_key(#[trigger] height_key(h))
        &&& forall|h: u64|
            1 <= h <= latest ==> (#[trigger] self.spec_block_at(h)).unwrap().header.prev_hash
                == self.spec_block_at((h - 1) as u64).unwrap().hash
        &&& forall|h: u64|
            h <= latest ==> (#[trigger] self.spec_block_at(h)).unwrap().header.merkle_root
                == spec_merkle_root(spec_tx_hashes(self.spec_block_at(h).unwrap().transactions))
        &&& forall|h: u64, i: int|
            h <= latest && 0 <= i < (#[trigger] self.spec_block_at(h)).unwrap().transactions.len()
                ==> self.txs_map().contains_key(
                #[trigger] self.spec_block_at(h).unwrap().transactions[i].hash,
            )
        &&& forall|k: Seq<u8>|
            #[trigger] self.txs_map().contains_key(k) ==> (spec_decode_tx(self.txs_map()[k])
                matches Some(t) && t.hash == k && t.wf())
    }
}

/// Storing the next block preserves the chain invariant: given a
/// well-formed block at the next height whose previous-hash names the
/// former head, the exact map updates of `store_block` keep every clause.
pub proof fn lemma_store_preserves_chain(pre: Ledger, post: Ledger, b: BlockView)
    requires
        pre.chain_ok(),
        b.wf(),
        b.header.height == pre.spec_latest_height() + 1,
        pre.spec_block_at(pre.spec_latest_height()) matches Some(pb) && b.header.prev_hash
            == pb.hash,
        b.header.merkle_root == spec_merkle_root(spec_tx_hashes(b.transactions)),
        post.blocks_map() == pre.blocks_map().insert(
            height_key(b.header.height),
            spec_encode_block(b),
        ).insert(hash_alias_key(b.hash), spec_u64_to_be_bytes(b.header.height)),
        post.txs_map() == spec_txs_stored(pre.txs_map(), b.transactions),
        post.meta_map() == pre.meta_map().insert(
            latest_height_key(),
            spec_u64_to_be_bytes(b.header.height),
        ),
    ensures
        post.chain_ok(),
        post.spec_latest_height() == b.header.height,
        post.spec_block_at(b.header.height) == Some(b),
{
    let h_new = b.header.height;
    lemma_u64_be_bytes(h_new);
    lemma_key_shapes(b.hash);
    lemma_block_round_trip(b);
    lemma_txs_stored_props(pre.txs_map(), b.transactions);
    assert(post.spec_latest_height() == h_new);
    assert(post.spec_block_at(h_new) == Some(b));
    assert forall|h: u64| h != h_new implies post.spec_block_at(h) == pre.spec_block_at(h)
        && post.blocks_map().contains_key(height_key(h)) == pre.blocks_map().contains_key(
        height_key(h),
    ) by {
        if height_key(h) == height_key(h_new) {
            lemma_u64_be_bytes_injective(h, h_new);
        }
        lemma_u64_be_bytes(h);
        assert(height_key(h).len() == 8);
        assert(hash_alias_key(b.hash).len() == 71);
    }
    assert forall|h: u64| h <= h_new implies ((#[trigger] post.spec_block_at(h)) matches Some(
        bb,
    ) && bb.wf() && bb.header.height == h) by {
        if h != h_new {
            assert(h <= pre.spec_latest_height());
        }
    }
    assert forall|h: u64| h > h_new implies !post.blocks_map().contains_key(
        #[trigger] height_key(h),
    ) by {
        if height_key(h) == height_key(h_new) {
            lemma_u64_be_bytes_injective(h, h_new);
        }
        lemma_u64_be_bytes(h);
        assert(height_key(h).len() == 8);
        assert(hash_alias_key(b.hash).len() == 71);
        assert(h > pre.spec_latest_height());
        assert(!pre.blocks_map().contains_key(height_key(h)));
    }
    assert forall|h: u64| 1 <= h <= h_new implies (
    #[trigger] post.spec_block_at(h)).unwrap().header.prev_hash == post.spec_block_at(
        (h - 1) as u64,
    ).unwrap().hash by {
        if h == h_new {
            assert(post.spec_block_at((h - 1) as u64) == pre.spec_block_at(
                pre.spec_latest_height(),
            ));
        } else {
            assert(h <= pre.spec_latest_height());
        }
    }
    assert forall|h: u64| h <= h_new implies (
    #[trigger] post.spec_block_at(h)).unwrap().header.merkle_root == spec_merkle_root(
        spec_tx_hashes(post.spec_block_at(h).unwrap().transactions),
    ) by {
        if h != h_new {
            assert(h <= pre.spec_latest_height());
            assert(pre.spec_block_at(h).unwrap().header.merkle_root == spec_merkle_root(
                spec_tx_hashes(pre.spec_block_at(h).unwrap().transactions),
            ));
        }
    }
    assert forall|h: u64, i: int|
        h <= h_new && 0 <= i < (#[trigger] post.spec_block_at(h)).unwrap().transactions.len()
        implies post.txs_map().contains_key(
        #[trigger] post.spec_block_at(h).unwrap().transactions[i].hash,
    ) by {
        if h == h_new {
            assert(post.txs_map().contains_key(b.transactions[i].hash));
        } else {
            assert(h <= pre.spec_latest_height());
            assert(pre.txs_map().contains_key(pre.spec_block_at(h).unwrap().transactions[i].hash));
        }
    }
    assert forall|k: Seq<u8>| #[trigger] post.txs_map().contains_key(k) implies (spec_decode_tx(
        post.txs_map()[k],
    ) matches Some(t) && t.hash == k && t.wf()) by {
        if pre.txs_map().contains_key(k) && post.txs_map()[k] == pre.txs_map()[k] {
        } else {
            let i = choose|i: int|
                0 <= i < b.transactions.len() && (#[trigger] b.transactions[i]).hash == k
                    && post.txs_map()[k] == spec_encode_tx(b.transactions[i]);
            lemma_tx_round_trip(b.transactions[i]);
        }
    }
}

/// Initializing an empty store with a height-0 block establishes the chain
/// invariant.
pub proof fn lemma_genesis_establishes_chain(pre: Ledger, post: Ledger, g: BlockView)
    requires
        pre.blocks_map() == empty_bytes_map(),
        pre.txs_map() == empty_bytes_map(),
        pre.meta_map() == empty_bytes_map(),
        g.wf(),
        g.header.height == 0,
        g.header.merkle_root == spec_merkle_root(spec_tx_hashes(g.transactions)),
        post.blocks_map() == pre.blocks_map().insert(
            height_key(0),
            spec_encode_block(g),
        ).insert(hash_alias_key(g.hash), spec_u64_to_be_bytes(0)),
        post.txs_map() == spec_txs_stored(pre.txs_map(), g.transactions),
        post.meta_map() == pre.meta_map().insert(latest_height_key(), spec_u64_to_be_bytes(0)),
    ensures
        post.chain_ok(),
        post.spec_latest_height() == 0,
        post.spec_block_at(0) == Some(g),
{
    lemma_u64_be_bytes(0);
    lemma_key_shapes(g.hash);
    lemma_block_round_trip(g);
    lemma_txs_stored_props(pre.txs_map(), g.transactions);
    assert(post.spec_latest_height() == 0);
    assert(post.spec_block_at(0) == Some(g));
    assert forall|h: u64| h > 0 implies !post.blocks_map().contains_key(
        #[trigger] height_key(h),
    ) by {
        if height_key(h) == height_key(0) {
            lemma_u64_be_bytes_injective(h, 0);
        }
        lemma_u64_be_bytes(h);
        assert(height_key(h).len() == 8);
        assert(hash_alias_key(g.hash).len() == 71);
    }
    assert forall|h: u64, i: int|
        h <= 0 && 0 <= i < (#[trigger] post.spec_block_at(h)).unwrap().transactions.len() implies
        post.txs_map().contains_key(
        #[trigger] post.spec_block_at(h).unwrap().transactions[i].hash,
    ) by {
        assert(post.txs_map().contains_key(g.transactions[i].hash));
    }
    assert forall|k: Seq<u8>| #[trigger] post.txs_map().contains_key(k) implies (spec_decode_tx(
        post.txs_map()[k],
    ) matches Some(t) && t.hash == k && t.wf()) by {
        let i = choose|i: int|
            0 <= i < g.transactions.len() && (#[trigger] g.transactions[i]).hash == k
                && post.txs_map()[k] == spec_encode_tx(g.transactions[i]);
        lemma_tx_round_trip(g.transactions[i]);
    }
}


/// The chain invariant depends only on the blocks, transactions and meta
/// trees, so it carries over to any state with the same chain trees.
pub proof fn lemma_chain_ok_same_chain(a: Ledger, b: Ledger)
    requires
        a.chain_ok(),
        a.same_chain_state(b),
    ensures
        b.chain_ok(),
        b.spec_latest_height() == a.spec_latest_height(),
{
    let latest = a.spec_latest_height();
    assert(b.spec_latest_height() == latest);
    assert forall|h: u64| true implies #[trigger] b.spec_block_at(h) == a.spec_block_at(h) by {}
    assert forall|h: u64| h <= latest implies ((#[trigger] b.spec_block_at(h)) matches Some(bb)
        && bb.wf() && bb.header.height == h) by {
        assert(a.spec_block_at(h) matches Some(x) && x.wf() && x.header.height == h);
    }
    assert forall|h: u64| 1 <= h <= latest implies (
    #[trigger] b.spec_block_at(h)).unwrap().header.prev_hash == b.spec_block_at(
        (h - 1) as u64,
    ).unwrap().hash by {
        assert(a.spec_block_at(h).unwrap().header.prev_hash == a.spec_block_at(
            (h - 1) as u64,
        ).unwrap().hash);
    }
    assert forall|h: u64, i: int|
        h <= latest && 0 <= i < (#[trigger] b.spec_block_at(h)).unwrap().transactions.len()
        implies b.txs_map().contains_key(
        #[trigger] b.spec_block_at(h).unwrap().transactions[i].hash,
    ) by {
        assert(a.txs_map().contains_key(a.spec_block_at(h).unwrap().transactions[i].hash));
    }
}


/// A key that none of the stored transactions carries keeps its old
/// binding.
pub proof fn lemma_txs_stored_frame(m: Map<Seq<u8>, Seq<u8>>, ts: Seq<TxView>, k: Seq<u8>)
    requires
        forall|j: int| 0 <= j < ts.len() ==> (#[trigger] ts[j]).hash != k,
    ensures
        spec_txs_stored(m, ts).contains_key(k) == m.contains_key(k),
        m.contains_key(k) ==> spec_txs_stored(m, ts)[k] == m[k],
    decreases ts.len(),
{
    if ts.len() == 0 {
    } else {
        let m1 = m.insert(ts[0].hash, spec_encode_tx(ts[0]));
        assert forall|j: int| 0 <= j < ts.drop_first().len() implies (
        #[trigger] ts.drop_first()[j]).hash != k by {
            assert(ts.drop_first()[j] == ts[j + 1]);
        }
        lemma_txs_stored_frame(m1, ts.drop_first(), k);
    }
}

/// Storing a batch binds each hash to the last transaction in the batch
/// that carries it.
pub proof fn lemma_txs_stored_latest_wins(m: Map<Seq<u8>, Seq<u8>>, ts: Seq<TxView>, i: int)
    requires
        0 <= i < ts.len(),
        forall|j: int| i < j < ts.len() ==> (#[trigger] ts[j]).hash != ts[i].hash,
    ensures
        spec_txs_stored(m, ts).contains_key(ts[i].hash),
        spec_txs_stored(m, ts)[ts[i].hash] == spec_encode_tx(ts[i]),
    decreases ts.len(),
{
    let m1 = m.insert(ts[0].hash, spec_encode_tx(ts[0]));
    if i == 0 {
        assert forall|j: int| 0 <= j < ts.drop_first().len() implies (
        #[trigger] ts.drop_first()[j]).hash != ts[0].hash by {
            assert(ts.drop_first()[j] == ts[j + 1]);
        }
        lemma_txs_stored_frame(m1, ts.drop_first(), ts[0].hash);
    } else {
        assert forall|j: int| i - 1 < j < ts.drop_first().len() implies (
        #[trigger] ts.drop_first()[j]).hash != ts.drop_first()[i - 1].hash by {
            assert(ts.drop_first()[j] == ts[j + 1]);
            assert(ts.drop_first()[i - 1] == ts[i]);
        }
        lemma_txs_stored_latest_wins(m1, ts.drop_first(), i - 1);
        assert(ts.drop_first()[i - 1] == ts[i]);
    }
}

/// Every transaction of a freshly stored block can be fetched back exactly
/// under its frozen hash, as long as no later transaction in the same block
/// reuses that hash (the index is keyed by hash, so a reused hash is
/// overwritten by the last writer).
pub proof fn lemma_stored_block_tx_round_trip(pre: Ledger, post: Ledger, b: BlockView, i: int)
    requires
        b.wf(),
        0 <= i < b.transactions.len(),
        post.txs_map() == spec_txs_stored(pre.txs_map(), b.transactions),
        forall|j: int| i < j < b.transactions.len() ==> (#[trigger] b.transactions[j]).hash
            != b.transactions[i].hash,
    ensures
        post.spec_tx_at(b.transactions[i].hash) == Some(b.transactions[i]),
{
    lemma_txs_stored_latest_wins(pre.txs_map(), b.transactions, i);
    lemma_tx_round_trip(b.transactions[i]);
}

/// Every stored block above genesis links to its predecessor by hash.
pub proof fn lemma_chain_linked(l: Ledger, h: u64)
    requires
        l.chain_ok(),
        1 <= h <= l.spec_latest_height(),
    ensures
        l.spec_block_at(h) matches Some(b) && l.spec_block_at((h - 1) as u64) matches Some(p)
            && b.header.prev_hash == p.hash,
{
}

/// Every stored block's Merkle root commits to exactly the hashes of its
/// transactions, in order.
pub proof fn lemma_chain_merkle_committed(l: Ledger, h: u64)
    requires
        l.chain_ok(),
        h <= l.spec_latest_height(),
    ensures
        l.spec_block_at(h) matches Some(b) && b.header.merkle_root == spec_merkle_root(
            spec_tx_hashes(b.transactions),
        ),
{
}

/// The recorded latest height is the maximum height in the blocks tree:
/// every height up to it holds a block, and none above it does.
pub proof fn lemma_latest_height_is_max(l: Ledger, h: u64)
    requires
        l.chain_ok(),
    ensures
        h <= l.spec_latest_height() ==> l.spec_block_at(h) is Some,
        h > l.spec_latest_height() ==> l.spec_block_at(h) is None,
{
}

/// Every transaction of every stored block can be looked up by its hash,
/// and what the index holds under that hash is a well-formed transaction
/// with exactly that hash.
pub proof fn lemma_block_txs_indexed(l: Ledger, h: u64, i: int)
    requires
        l.chain_ok(),
        h <= l.spec_latest_height(),
        0 <= i < l.spec_block_at(h).unwrap().transactions.len(),
    ensures
        l.spec_tx_at(l.spec_block_at(h).unwrap().transactions[i].hash) matches Some(t) && t.hash
            == l.spec_block_at(h).unwrap().transactions[i].hash && t.wf(),
{
}

} // verus!

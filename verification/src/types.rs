//! Core data model: transactions, block headers, blocks, accounts and the
//! chain configuration. Fixed-width binary values (hashes, addresses,
//! signatures) are byte vectors with stated lengths; each type has a ghost
//! view over which the contracts speak.

use vstd::prelude::*;
use crate::bytesutil::zero_seq;
use crate::bytesutil::zero_bytes;
use crate::bytesutil::copy_bytes;

verus! {

/// Abstract value of an `Option<Vec<u8>>` field.
pub open spec fn view_opt_bytes(o: Option<Vec<u8>>) -> Option<Seq<u8>> {
    match o {
        Some(v) => Some(v@),
        None => None,
    }
}

/// A 64-byte Ed25519 signature.
#[derive(Debug, PartialEq, Eq)]
pub struct Signature {
    pub bytes: Vec<u8>,
}

impl View for Signature {
    type V = Seq<u8>;

    open spec fn view(&self) -> Seq<u8> {
        self.bytes@
    }
}

impl Signature {
    pub open spec fn wf(self) -> bool {
        self@.len() == 64
    }

    pub fn from_bytes(bytes: Vec<u8>) -> (s: Self)
        ensures
            s@ == bytes@,
    {
        Signature { bytes }
    }
}

impl Clone for Signature {
    fn clone(&self) -> (s: Self)
        ensures
            s@ == self@,
    {
        Signature { bytes: copy_bytes(self.bytes.as_slice()) }
    }
}

impl Default for Signature {
    /// The all-zero signature, used before a header is signed.
    fn default() -> (s: Self)
        ensures
            s@ == zero_seq(64),
            s.wf(),
    {
        Signature { bytes: zero_bytes(64) }
    }
}

/// Abstract value of a `Transaction`.
#[verifier::ext_equal]
pub ghost struct TxView {
    pub hash: Seq<u8>,
    pub from: Seq<u8>,
    pub to: Seq<u8>,
    pub amount: u64,
    pub nonce: u64,
    pub gas_limit: u64,
    pub gas_price: u64,
    pub data: Seq<u8>,
    pub signature: Seq<u8>,
    pub timestamp: u64,
}

impl TxView {
    pub open spec fn wf(self) -> bool {
        &&& self.hash.len() == 32
        &&& self.from.len() == 20
        &&& self.to.len() == 20
        &&& self.signature.len() == 64
        &&& self.data.len() <= 0xffff_ffff
    }

    /// The total debit a sender pays: amount plus gas, as an unbounded integer.
    pub open spec fn spec_total_cost(self) -> int {
        self.amount + self.gas_limit * self.gas_price
    }
}

/// A value transfer. `hash` is the content digest frozen at admission;
/// `timestamp` is a UTC instant in whole seconds.
#[derive(Debug, PartialEq, Eq)]
pub struct Transaction {
    pub hash: Vec<u8>,
    pub from: Vec<u8>,
    pub to: Vec<u8>,
    pub amount: u64,
    pub nonce: u64,
    pub gas_limit: u64,
    pub gas_price: u64,
    pub data: Vec<u8>,
    pub signature: Signature,
    pub timestamp: u64,
}

impl View for Transaction {
    type V = TxView;

    open spec fn view(&self) -> TxView {
        TxView {
            hash: self.hash@,
            from: self.from@,
            to: self.to@,
            amount: self.amount,
            nonce: self.nonce,
            gas_limit: self.gas_limit,
            gas_price: self.gas_price,
            data: self.data@,
            signature: self.signature@,
            timestamp: self.timestamp,
        }
    }
}

impl Clone for Transaction {
    fn clone(&self) -> (t: Self)
        ensures
            t@ == self@,
    {
        Transaction {
            hash: copy_bytes(self.hash.as_slice()),
            from: copy_bytes(self.from.as_slice()),
            to: copy_bytes(self.to.as_slice()),
            amount: self.amount,
            nonce: self.nonce,
            gas_limit: self.gas_limit,
            gas_price: self.gas_price,
            data: copy_bytes(self.data.as_slice()),
            signature: self.signature.clone(),
            timestamp: self.timestamp,
        }
    }
}

impl Transaction {
    /// A fresh transaction with the given fields, a zero hash, a zero
    /// signature and the given timestamp. The hash is filled in by the
    /// caller once computed.
    pub fn new(
        from: Vec<u8>,
        to: Vec<u8>,
        amount: u64,
        nonce: u64,
        gas_limit: u64,
        gas_price: u64,
        data: Vec<u8>,
        timestamp: u64,
    ) -> (t: Self)
        requires
            from@.len() == 20,
            to@.len() == 20,
            data@.len() <= 0xffff_ffff,
        ensures
            t@ == (TxView {
                hash: zero_seq(32),
                from: from@,
                to: to@,
                amount,
                nonce,
                gas_limit,
                gas_price,
                data: data@,
                signature: zero_seq(64),
                timestamp,
            }),
            t@.wf(),
    {
        Transaction {
            hash: zero_bytes(32),
            from,
            to,
            amount,
            nonce,
            gas_limit,
            gas_price,
            data,
            signature: Signature::default(),
            timestamp,
        }
    }

    /// `amount + gas_limit * gas_price`, or `None` when the sum does not fit
    /// in a `u64`: overflowing costs are rejected, never wrapped.
    pub fn total_cost(&self) -> (r: Option<u64>)
        ensures
            match r {
                Some(c) => c == self@.spec_total_cost(),
                None => self@.spec_total_cost() > u64::MAX,
            },
    {
        match self.gas_limit.checked_mul(self.gas_price) {
            Some(gas) => self.amount.checked_add(gas),
            None => None,
        }
    }
}

/// Abstract value of a `BlockHeader`.
#[verifier::ext_equal]
pub ghost struct HeaderView {
    pub version: u32,
    pub height: u64,
    pub timestamp: u64,
    pub prev_hash: Seq<u8>,
    pub merkle_root: Seq<u8>,
    pub state_root: Seq<u8>,
    pub validator: Seq<u8>,
    pub signature: Seq<u8>,
}

impl HeaderView {
    pub open spec fn wf(self) -> bool {
        &&& self.prev_hash.len() == 32
        &&& self.merkle_root.len() == 32
        &&& self.state_root.len() == 32
        &&& self.validator.len() == 20
        &&& self.signature.len() == 64
    }
}

#[derive(Debug, PartialEq, Eq)]
pub struct BlockHeader {
    pub version: u32,
    pub height: u64,
    pub timestamp: u64,
    pub prev_hash: Vec<u8>,
    pub merkle_root: Vec<u8>,
    pub state_root: Vec<u8>,
    pub validator: Vec<u8>,
    pub signature: Signature,
}

impl View for BlockHeader {
    type V = HeaderView;

    open spec fn view(&self) -> HeaderView {
        HeaderView {
            version: self.version,
            height: self.height,
            timestamp: self.timestamp,
            prev_hash: self.prev_hash@,
            merkle_root: self.merkle_root@,
            state_root: self.state_root@,
            validator: self.validator@,
            signature: self.signature@,
        }
    }
}

impl Clone for BlockHeader {
    fn clone(&self) -> (h: Self)
        ensures
            h@ == self@,
    {
        BlockHeader {
            version: self.version,
            height: self.height,
            timestamp: self.timestamp,
            prev_hash: copy_bytes(self.prev_hash.as_slice()),
            merkle_root: copy_bytes(self.merkle_root.as_slice()),
            state_root: copy_bytes(self.state_root.as_slice()),
            validator: copy_bytes(self.validator.as_slice()),
            signature: self.signature.clone(),
        }
    }
}

/// The sequence of abstract values of a sequence of transactions.
pub open spec fn views_of_txs(ts: Seq<Transaction>) -> Seq<TxView> {
    Seq::new(ts.len(), |i: int| ts[i]@)
}

/// Abstract value of a `Block`.
#[verifier::ext_equal]
pub ghost struct BlockView {
    pub header: HeaderView,
    pub transactions: Seq<TxView>,
    pub hash: Seq<u8>,
}

impl BlockView {
    pub open spec fn wf(self) -> bool {
        &&& self.header.wf()
        &&& self.hash.len() == 32
        &&& self.transactions.len() <= 0xffff_ffff
        &&& forall|i: int| 0 <= i < self.transactions.len() ==> (#[trigger] self.transactions[i]).wf()
    }
}

/// An ordered batch of transactions under a header that links to the
/// previous block. `hash` is the header digest.
#[derive(Debug, PartialEq, Eq)]
pub struct Block {
    pub header: BlockHeader,
    pub transactions: Vec<Transaction>,
    pub hash: Vec<u8>,
}

impl View for Block {
    type V = BlockView;

    open spec fn view(&self) -> BlockView {
        BlockView {
            header: self.header@,
            transactions: views_of_txs(self.transactions@),
            hash: self.hash@,
        }
    }
}

impl Clone for Block {
    fn clone(&self) -> (b: Self)
        ensures
            b@ == self@,
    {
        let mut txs: Vec<Transaction> = Vec::new();
        let mut i: usize = 0;
        while i < self.transactions.len()
            invariant
                i <= self.transactions@.len(),
                txs@.len() == i,
                forall|j: int| 0 <= j < i ==> (#[trigger] txs@[j])@ == self.transactions@[j]@,
            decreases self.transactions@.len() - i,
        {
            txs.push(self.transactions[i].clone());
            i = i + 1;
        }
        let b = Block {
            header: self.header.clone(),
            transactions: txs,
            hash: copy_bytes(self.hash.as_slice()),
        };
        proof {
            assert(b@.transactions =~= self@.transactions);
        }
        b
    }
}

impl Block {
    /// The height-0 block: zero hashes, no transactions, zero validator and
    /// signature, version 1, at the given timestamp.
    pub fn genesis(timestamp: u64) -> (b: Self)
        ensures
            b@.header.version == 1,
            b@.header.height == 0,
            b@.header.timestamp == timestamp,
            b@.header.prev_hash == zero_seq(32),
            b@.header.merkle_root == zero_seq(32),
            b@.header.state_root == zero_seq(32),
            b@.header.validator == zero_seq(20),
            b@.header.signature == zero_seq(64),
            b@.transactions.len() == 0,
            b@.hash == zero_seq(32),
            b@.wf(),
    {
        let header = BlockHeader {
            version: 1,
            height: 0,
            timestamp,
            prev_hash: zero_bytes(32),
            merkle_root: zero_bytes(32),
            state_root: zero_bytes(32),
            validator: zero_bytes(20),
            signature: Signature::default(),
        };
        Block { header, transactions: Vec::new(), hash: zero_bytes(32) }
    }

    pub fn tx_count(&self) -> (n: usize)
        ensures
            n == self@.transactions.len(),
    {
        self.transactions.len()
    }
}

/// Abstract value of an `Account`.
#[verifier::ext_equal]
pub ghost struct AccountView {
    pub address: Seq<u8>,
    pub balance: u64,
    pub nonce: u64,
    pub code_hash: Option<Seq<u8>>,
    pub storage_root: Option<Seq<u8>>,
}

impl AccountView {
    pub open spec fn wf(self) -> bool {
        &&& self.address.len() == 20
        &&& (self.code_hash matches Some(h) ==> h.len() == 32)
        &&& (self.storage_root matches Some(h) ==> h.len() == 32)
    }

    /// The fresh account materialized on first read of an unknown address.
    pub open spec fn zero_account(address: Seq<u8>) -> AccountView {
        AccountView { address, balance: 0, nonce: 0, code_hash: None, storage_root: None }
    }
}

/// Balance and replay-protection nonce of one address. Reads of unknown
/// addresses yield a zero-valued account; the store materializes on first
/// write.
#[derive(Debug, PartialEq, Eq)]
pub struct Account {
    pub address: Vec<u8>,
    pub balance: u64,
    pub nonce: u64,
    pub code_hash: Option<Vec<u8>>,
    pub storage_root: Option<Vec<u8>>,
}

impl View for Account {
    type V = AccountView;

    open spec fn view(&self) -> AccountView {
        AccountView {
            address: self.address@,
            balance: self.balance,
            nonce: self.nonce,
            code_hash: view_opt_bytes(self.code_hash),
            storage_root: view_opt_bytes(self.storage_root),
        }
    }
}

impl Clone for Account {
    fn clone(&self) -> (a: Self)
        ensures
            a@ == self@,
    {
        Account {
            address: copy_bytes(self.address.as_slice()),
            balance: self.balance,
            nonce: self.nonce,
            code_hash: match &self.code_hash {
                Some(h) => Some(copy_bytes(h.as_slice())),
                None => None,
            },
            storage_root: match &self.storage_root {
                Some(h) => Some(copy_bytes(h.as_slice())),
                None => None,
            },
        }
    }
}

impl Account {
    pub fn new(address: Vec<u8>) -> (a: Self)
        requires
            address@.len() == 20,
        ensures
            a@ == AccountView::zero_account(address@),
            a@.wf(),
    {
        Account { address, balance: 0, nonce: 0, code_hash: None, storage_root: None }
    }

    pub fn with_balance(address: Vec<u8>, balance: u64) -> (a: Self)
        requires
            address@.len() == 20,
        ensures
            a@ == (AccountView {
                address: address@,
                balance,
                nonce: 0,
                code_hash: None,
                storage_root: None,
            }),
            a@.wf(),
    {
        Account { address, balance, nonce: 0, code_hash: None, storage_root: None }
    }
}

/// Chain-wide parameters, immutable after startup.
#[derive(Debug)]
pub struct ChainConfig {
    pub chain_id: u64,
    pub chain_name: String,
    pub symbol: String,
    pub decimals: u8,
    pub block_time_ms: u64,
    pub max_block_size: usize,
    pub max_tx_per_block: usize,
    pub genesis_validators: Vec<Vec<u8>>,
}

impl ChainConfig {
    pub open spec fn wf(self) -> bool {
        &&& forall|i: int|
            0 <= i < self.genesis_validators@.len()
                ==> (#[trigger] self.genesis_validators@[i])@.len() == 20
        &&& self.max_tx_per_block <= 0xffff_ffff
    }
}

impl Clone for ChainConfig {
    fn clone(&self) -> (c: Self)
        ensures
            c.chain_id == self.chain_id,
            c.chain_name@ == self.chain_name@,
            c.symbol@ == self.symbol@,
            c.decimals == self.decimals,
            c.block_time_ms == self.block_time_ms,
            c.max_block_size == self.max_block_size,
            c.max_tx_per_block == self.max_tx_per_block,
            c.genesis_validators.deep_view() == self.genesis_validators.deep_view(),
    {
        let mut vals: Vec<Vec<u8>> = Vec::new();
        let mut i: usize = 0;
        while i < self.genesis_validators.len()
            invariant
                i <= self.genesis_validators@.len(),
                vals@.len() == i,
                forall|j: int| 0 <= j < i
                    ==> (#[trigger] vals@[j])@ == self.genesis_validators@[j]@,
            decreases self.genesis_validators@.len() - i,
        {
            vals.push(copy_bytes(self.genesis_validators[i].as_slice()));
            i = i + 1;
        }
        let c = ChainConfig {
            chain_id: self.chain_id,
            chain_name: self.chain_name.clone(),
            symbol: self.symbol.clone(),
            decimals: self.decimals,
            block_time_ms: self.block_time_ms,
            max_block_size: self.max_block_size,
            max_tx_per_block: self.max_tx_per_block,
            genesis_validators: vals,
        };
        proof {
            assert(c.genesis_validators.deep_view() =~= self.genesis_validators.deep_view());
        }
        c
    }
}

impl Default for ChainConfig {
    fn default() -> (c: Self)
        ensures
            c.chain_id == 1337,
            c.chain_name@ == "DarkWave Chain"@,
            c.symbol@ == "DWAV"@,
            c.decimals == 8,
            c.block_time_ms == 400,
            c.max_block_size == 1000000,
            c.max_tx_per_block == 10000,
            c.genesis_validators@.len() == 0,
            c.wf(),
    {
        ChainConfig {
            chain_id: 1337,
            chain_name: "DarkWave Chain".to_owned(),
            symbol: "DWAV".to_owned(),
            decimals: 8,
            block_time_ms: 400,
            max_block_size: 1000000,
            max_tx_per_block: 10000,
            genesis_validators: Vec::new(),
        }
    }
}

} // verus!

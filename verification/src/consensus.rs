//! Proof-of-authority consensus: the validator set with its round-robin
//! cursor, the FIFO mempool, transaction admission, block production and
//! block validation.

use vstd::prelude::*;
use std::collections::VecDeque;
use crate::bytesutil::{
    copy_bytes, bytes_eq, u64_to_be_bytes, spec_u64_to_be_bytes, zero_seq,
};
use crate::types::{
    Transaction, TxView, Block, BlockView, BlockHeader, HeaderView, ChainConfig, Signature,
    views_of_txs,
};
use crate::crypto::{
    Keypair, hash_bytes, hash_block_header, compute_merkle_root, verify_signature,
    spec_address_of_public_key, spec_header_digest, spec_merkle_root, spec_tx_hashes, sha256_of,
    ed25519_public_key_of, ed25519_signature_of, ed25519_verify_ok, ed25519_valid_public_key,
    views_of_bytes, CryptoError,
};
use crate::ledger::{
    Ledger, LedgerError, lemma_store_preserves_chain, lemma_chain_ok_same_chain, height_key,
    hash_alias_key, latest_height_key, spec_txs_stored, spec_apply_batch, spec_apply_one,
    lemma_apply_batch_snoc,
};

verus! {

#[derive(Debug, PartialEq, Eq)]
pub enum ConsensusError {
    InvalidBlock(String),
    InvalidTransaction(String),
    NotValidator,
    LedgerError(LedgerError),
}

/// How many transactions one block drains: the per-block cap, or the whole
/// mempool when it is smaller.
pub open spec fn spec_batch_len(cap: usize, pool_len: nat) -> int {
    if cap as nat <= pool_len {
        cap as int
    } else {
        pool_len as int
    }
}

/// The consensus engine: chain parameters, the ordered validator set with
/// its round-robin cursor, the optional local signing key, the ledger it
/// appends to, and the FIFO mempool.
pub struct ProofOfAuthority {
    config: ChainConfig,
    validators: Vec<Vec<u8>>,
    current_validator_index: usize,
    keypair: Option<Keypair>,
    ledger: Ledger,
    mempool: VecDeque<Transaction>,
}

impl ProofOfAuthority {
    /// The ordered validator addresses.
    pub closed spec fn validators_view(self) -> Seq<Seq<u8>> {
        views_of_bytes(self.validators@)
    }

    /// The round-robin cursor.
    pub closed spec fn cursor(self) -> int {
        self.current_validator_index as int
    }

    /// The admitted, not yet included transactions, oldest first.
    pub closed spec fn mempool_view(self) -> Seq<TxView> {
        views_of_txs(self.mempool@)
    }

    /// The ledger this engine appends to.
    pub closed spec fn lgr(self) -> Ledger {
        self.ledger
    }

    /// The local signing keypair, if this node authors blocks.
    pub closed spec fn keypair_spec(self) -> Option<Keypair> {
        self.keypair
    }

    /// The chain configuration.
    pub closed spec fn cfg(self) -> ChainConfig {
        self.config
    }

    pub open spec fn wf(self) -> bool {
        &&& forall|i: int|
            0 <= i < self.validators_view().len() ==> (#[trigger] self.validators_view()[i]).len()
                == 20
        &&& (self.keypair_spec() matches Some(kp) ==> kp.wf())
        &&& (self.validators_view().len() == 0 ==> self.cursor() == 0)
        &&& (self.validators_view().len() > 0 ==> self.cursor() < self.validators_view().len())
        &&& forall|i: int|
            0 <= i < self.mempool_view().len() ==> (#[trigger] self.mempool_view()[i]).wf()
        &&& self.cfg().wf()
    }

    pub fn new(config: ChainConfig, ledger: Ledger, keypair: Option<Keypair>) -> (r: Self)
        requires
            config.wf(),
            keypair matches Some(kp) ==> kp.wf(),
        ensures
            r.validators_view() == views_of_bytes(config.genesis_validators@),
            r.cursor() == 0,
            r.mempool_view() == Seq::<TxView>::empty(),
            r.lgr() == ledger,
            r.keypair_spec() == keypair,
            r.cfg().max_tx_per_block == config.max_tx_per_block,
            r.cfg().chain_id == config.chain_id,
            r.cfg().block_time_ms == config.block_time_ms,
            r.wf(),
    {
        let mut validators: Vec<Vec<u8>> = Vec::new();
        let mut i: usize = 0;
        while i < config.genesis_validators.len()
            invariant
                i <= config.genesis_validators@.len(),
                config.wf(),
                validators@.len() == i,
                forall|j: int| 0 <= j < i ==> (#[trigger] validators@[j])@
                    == config.genesis_validators@[j]@,
            decreases config.genesis_validators@.len() - i,
        {
            validators.push(copy_bytes(config.genesis_validators[i].as_slice()));
            i = i + 1;
        }
        let r = ProofOfAuthority {
            config,
            validators,
            current_validator_index: 0,
            keypair,
            ledger,
            mempool: VecDeque::new(),
        };
        proof {
            assert(r.validators_view() =~= views_of_bytes(r.config.genesis_validators@));
            assert(r.mempool_view() =~= Seq::<TxView>::empty());
        }
        r
    }

    /// A shared view of the ledger, for reads.
    pub fn ledger(&self) -> (r: &Ledger)
        ensures
            *r == self.lgr(),
    {
        &self.ledger
    }

    /// The chain configuration.
    pub fn config(&self) -> (r: &ChainConfig)
        ensures
            *r == self.cfg(),
    {
        &self.config
    }

    /// Replaces the local signing keypair; the rest of the engine state is
    /// untouched. Used when a different authority takes over authoring.
    pub fn set_keypair(&mut self, keypair: Option<Keypair>)
        requires
            keypair matches Some(kp) ==> kp.wf(),
        ensures
            final(self).keypair_spec() == keypair,
            final(self).validators_view() == old(self).validators_view(),
            final(self).cursor() == old(self).cursor(),
            final(self).mempool_view() == old(self).mempool_view(),
            final(self).lgr() == old(self).lgr(),
            final(self).cfg() == old(self).cfg(),
            old(self).wf() ==> final(self).wf(),
    {
        self.keypair = keypair;
    }

    /// Appends an address to the validator set if it is not yet a member;
    /// adding a member again changes nothing.
    pub fn add_validator(&mut self, address: Vec<u8>)
        requires
            address@.len() == 20,
        ensures
            old(self).validators_view().contains(address@) ==> final(self).validators_view()
                == old(self).validators_view(),
            !old(self).validators_view().contains(address@) ==> final(self).validators_view()
                == old(self).validators_view().push(address@),
            final(self).cursor() == old(self).cursor(),
            final(self).mempool_view() == old(self).mempool_view(),
            final(self).lgr() == old(self).lgr(),
            final(self).keypair_spec() == old(self).keypair_spec(),
            final(self).cfg() == old(self).cfg(),
            old(self).wf() ==> final(self).wf(),
    {
        if !self.is_validator(&address) {
            self.validators.push(address);
            proof {
                assert(final(self).validators_view() =~= old(self).validators_view().push(
                    address@,
                ));
            }
        }
    }

    /// Whether an address is in the validator set.
    pub fn is_validator(&self, address: &Vec<u8>) -> (r: bool)
        ensures
            r == self.validators_view().contains(address@),
    {
        let mut i: usize = 0;
        while i < self.validators.len()
            invariant
                i <= self.validators@.len(),
                forall|j: int| 0 <= j < i ==> self.validators_view()[j] != address@,
            decreases self.validators@.len() - i,
        {
            if bytes_eq(self.validators[i].as_slice(), address.as_slice()) {
                proof {
                    assert(self.validators_view()[i as int] == address@);
                }
                return true;
            }
            i = i + 1;
        }
        proof {
            assert(forall|j: int|
                0 <= j < self.validators_view().len() ==> self.validators_view()[j] != address@);
        }
        false
    }

    /// The validator the cursor points at, or none when the set is empty.
    pub fn current_validator(&self) -> (r: Option<Vec<u8>>)
        ensures
            match r {
                Some(a) => self.cursor() < self.validators_view().len() && a@
                    == self.validators_view()[self.cursor()],
                None => self.cursor() >= self.validators_view().len(),
            },
    {
        if self.current_validator_index < self.validators.len() {
            Some(copy_bytes(self.validators[self.current_validator_index].as_slice()))
        } else {
            None
        }
    }

    /// Advances the cursor by one, modulo the set size; a no-op when the
    /// set is empty.
    pub fn rotate_validator(&mut self)
        requires
            old(self).wf(),
        ensures
            old(self).validators_view().len() == 0 ==> final(self).cursor() == old(self).cursor(),
            old(self).validators_view().len() > 0 ==> final(self).cursor() == (old(self).cursor()
                + 1) % (old(self).validators_view().len() as int),
            final(self).validators_view() == old(self).validators_view(),
            final(self).mempool_view() == old(self).mempool_view(),
            final(self).lgr() == old(self).lgr(),
            final(self).keypair_spec() == old(self).keypair_spec(),
            final(self).cfg() == old(self).cfg(),
            old(self).wf() ==> final(self).wf(),
    {
        if self.validators.len() > 0 {
            self.current_validator_index = (self.current_validator_index + 1)
                % self.validators.len();
        }
        proof {
            assert(self.mempool_view() == old(self).mempool_view());
            assert(self.validators_view() == old(self).validators_view());
            assert(self.cfg() == old(self).cfg());
        }
    }

    /// The number of admitted, not yet included transactions.
    pub fn mempool_size(&self) -> (r: usize)
        ensures
            r == self.mempool_view().len(),
    {
        self.mempool.len()
    }

    /// The number of validators.
    pub fn validator_count(&self) -> (r: usize)
        ensures
            r == self.validators_view().len(),
    {
        self.validators.len()
    }

    /// Shape check at admission: a zero gas limit and a self-transfer are
    /// rejected, each with its fixed message; anything else is admitted.
    /// No signature is checked at admission.
    pub fn validate_transaction(&self, tx: &Transaction) -> (r: Result<(), ConsensusError>)
        ensures
            tx@.gas_limit == 0 ==> (r matches Err(ConsensusError::InvalidTransaction(m)) && m@
                == "Gas limit cannot be zero"@),
            tx@.gas_limit != 0 && tx@.from == tx@.to ==> (r matches Err(
                ConsensusError::InvalidTransaction(m),
            ) && m@ == "Cannot send to self"@),
            tx@.gas_limit != 0 && tx@.from != tx@.to ==> r matches Ok(_),
    {
        if tx.gas_limit == 0 {
            return Err(ConsensusError::InvalidTransaction("Gas limit cannot be zero".to_owned()));
        }
        if bytes_eq(tx.from.as_slice(), tx.to.as_slice()) {
            return Err(ConsensusError::InvalidTransaction("Cannot send to self".to_owned()));
        }
        Ok(())
    }

    /// Admits a transaction: validates its shape, then appends it to the
    /// mempool tail and returns its frozen hash.
    pub fn submit_transaction(&mut self, tx: Transaction) -> (r: Result<Vec<u8>, ConsensusError>)
        requires
            tx@.wf(),
        ensures
            tx@.gas_limit != 0 && tx@.from != tx@.to ==> (r matches Ok(h) && h@ == tx@.hash
                && final(self).mempool_view() == old(self).mempool_view().push(tx@)),
            tx@.gas_limit == 0 ==> (r matches Err(ConsensusError::InvalidTransaction(m)) && m@
                == "Gas limit cannot be zero"@ && final(self).mempool_view() == old(self).mempool_view()),
            tx@.gas_limit != 0 && tx@.from == tx@.to ==> (r matches Err(
                ConsensusError::InvalidTransaction(m),
            ) && m@ == "Cannot send to self"@ && final(self).mempool_view() == old(self).mempool_view()),
            final(self).validators_view() == old(self).validators_view(),
            final(self).cursor() == old(self).cursor(),
            final(self).lgr() == old(self).lgr(),
            final(self).keypair_spec() == old(self).keypair_spec(),
            final(self).cfg() == old(self).cfg(),
            old(self).wf() ==> final(self).wf(),
    {
        match self.validate_transaction(&tx) {
            Ok(_) => {},
            Err(e) => {
                return Err(e);
            },
        }
        let tx_hash = copy_bytes(tx.hash.as_slice());
        self.mempool.push_back(tx);
        proof {
            assert(final(self).mempool_view() =~= old(self).mempool_view().push(tx@));
        }
        Ok(tx_hash)
    }
}


impl ProofOfAuthority {
    /// Produces, signs and persists the next block at the given wall-clock
    /// timestamp (seconds): requires a local key whose address is in the
    /// validator set; drains up to `max_tx_per_block` transactions from the
    /// mempool head in order; applies each to the ledger, keeping also
    /// those whose application is rejected, though a store fault during
    /// application fails the attempt; commits to the batch by Merkle root;
    /// links to the previous head by hash; signs the header digest; stores
    /// the block and advances the round-robin cursor.
    pub fn produce_block(&mut self, timestamp: u64) -> (r: Result<Block, ConsensusError>)
        requires
            old(self).wf(),
        ensures
            final(self).wf(),
            final(self).validators_view() == old(self).validators_view(),
            final(self).keypair_spec() == old(self).keypair_spec(),
            final(self).cfg() == old(self).cfg(),
            old(self).keypair_spec() is None ==> r matches Err(ConsensusError::NotValidator),
            (old(self).keypair_spec() matches Some(kp) && !old(self).validators_view().contains(
                spec_address_of_public_key(ed25519_public_key_of(kp.seed_view())),
            )) ==> r matches Err(ConsensusError::NotValidator),
            match r {
                Ok(b) => ({
                    let kp = old(self).keypair_spec().unwrap();
                    let own = spec_address_of_public_key(ed25519_public_key_of(kp.seed_view()));
                    let latest = old(self).lgr().spec_latest_height();
                    let pool = old(self).mempool_view();
                    let k = spec_batch_len(old(self).cfg().max_tx_per_block, pool.len());
                    &&& old(self).keypair_spec() is Some
                    &&& old(self).validators_view().contains(own)
                    &&& old(self).lgr().spec_block_at(latest) matches Some(pb) && b@.header.prev_hash
                        == pb.hash && b@.header.height == pb.header.height + 1
                    &&& b@.wf()
                    &&& b@.header.version == 1
                    &&& b@.header.timestamp == timestamp
                    &&& b@.header.validator == own
                    &&& b@.transactions == pool.take(k)
                    &&& b@.transactions.len() == k
                    &&& final(self).mempool_view() == pool.skip(k)
                    &&& b@.header.merkle_root == spec_merkle_root(spec_tx_hashes(b@.transactions))
                    &&& b@.header.state_root == sha256_of(spec_u64_to_be_bytes(b@.header.height))
                    &&& b@.header.signature == ed25519_signature_of(
                        kp.seed_view(),
                        spec_header_digest(b@.header),
                    )
                    &&& ed25519_verify_ok(
                        ed25519_public_key_of(kp.seed_view()),
                        spec_header_digest(b@.header),
                        b@.header.signature,
                    )
                    &&& b@.hash == spec_header_digest(b@.header)
                    &&& final(self).lgr().blocks_map() == old(self).lgr().blocks_map().insert(
                        height_key(b@.header.height),
                        crate::codec::spec_encode_block(b@),
                    ).insert(hash_alias_key(b@.hash), spec_u64_to_be_bytes(b@.header.height))
                    &&& final(self).lgr().txs_map() == spec_txs_stored(
                        old(self).lgr().txs_map(),
                        b@.transactions,
                    )
                    &&& final(self).lgr().meta_map() == old(self).lgr().meta_map().insert(
                        latest_height_key(),
                        spec_u64_to_be_bytes(b@.header.height),
                    )
                    &&& final(self).lgr().accounts_map() == spec_apply_batch(
                        old(self).lgr().accounts_map(),
                        b@.transactions,
                    )
                    &&& final(self).cursor() == (old(self).cursor() + 1) % (
                    old(self).validators_view().len() as int)
                    &&& (old(self).lgr().chain_ok() ==> final(self).lgr().chain_ok() && final(self).lgr().spec_latest_height() == b@.header.height && final(self).lgr().spec_block_at(b@.header.height) == Some(b@))
                }),
                Err(ConsensusError::NotValidator) => (old(self).keypair_spec() is None || !old(self).validators_view().contains(
                    spec_address_of_public_key(
                        ed25519_public_key_of(old(self).keypair_spec().unwrap().seed_view()),
                    ),
                )) && final(self).mempool_view() == old(self).mempool_view() && final(self).cursor() == old(self).cursor() && final(self).lgr() == old(self).lgr(),
                Err(ConsensusError::InvalidBlock(_)) => old(self).lgr().spec_block_at(
                    old(self).lgr().spec_latest_height(),
                ) matches Some(pb) && pb.header.height == u64::MAX && final(self).mempool_view()
                    == old(self).mempool_view() && final(self).cursor() == old(self).cursor()
                    && final(self).lgr() == old(self).lgr(),
                Err(ConsensusError::LedgerError(_)) => final(self).cursor() == old(self).cursor()
                    && (final(self).mempool_view() == old(self).mempool_view() || final(self).mempool_view() == old(self).mempool_view().skip(
                    spec_batch_len(old(self).cfg().max_tx_per_block, old(self).mempool_view().len()),
                )),
                Err(ConsensusError::InvalidTransaction(_)) => false,
            },
    {
        let kp = match &self.keypair {
            Some(k) => k.clone(),
            None => {
                return Err(ConsensusError::NotValidator);
            },
        };
        let validator_address = kp.address();
        if !self.is_validator(&validator_address) {
            return Err(ConsensusError::NotValidator);
        }
        let prev_block = match self.ledger.get_latest_block() {
            Ok(b) => b,
            Err(e) => {
                return Err(ConsensusError::LedgerError(e));
            },
        };
        if prev_block.header.height == u64::MAX {
            return Err(ConsensusError::InvalidBlock("Block height overflow".to_owned()));
        }
        let new_height = prev_block.header.height + 1;

        let max_txs: usize = if self.config.max_tx_per_block <= self.mempool.len() {
            self.config.max_tx_per_block
        } else {
            self.mempool.len()
        };
        let ghost k = max_txs as int;
        let ghost pool = old(self).mempool_view();
        proof {
            assert(k == spec_batch_len(old(self).cfg().max_tx_per_block, pool.len()));
        }
        let mut txs_vec: Vec<Transaction> = Vec::new();
        let mut i: usize = 0;
        while i < max_txs
            invariant
                i <= max_txs,
                k == max_txs as int,
                k <= pool.len(),
                pool == old(self).mempool_view(),
                txs_vec@.len() == i,
                views_of_txs(txs_vec@) == pool.take(i as int),
                forall|j: int| 0 <= j < i ==> (#[trigger] txs_vec@[j])@.wf(),
                self.mempool_view() == pool.skip(i as int),
                self.validators_view() == old(self).validators_view(),
                self.cursor() == old(self).cursor(),
                self.keypair_spec() == old(self).keypair_spec(),
                self.cfg() == old(self).cfg(),
                self.lgr() == old(self).lgr(),
                old(self).wf(),
            decreases max_txs - i,
        {
            let ghost pre_pop: Seq<Transaction> = self.mempool@;
            proof {
                assert(views_of_txs(pre_pop) == pool.skip(i as int));
                assert(pool.skip(i as int).len() == pool.len() - i);
                assert(pre_pop.len() > 0);
            }
            let tx = match self.mempool.pop_front() {
                Some(t) => t,
                None => {
                    proof {
                        assert(false);
                    }
                    return Err(ConsensusError::NotValidator);
                },
            };
            proof {
                assert(tx == pre_pop[0]);
                assert(tx@ == views_of_txs(pre_pop)[0]);
                assert(tx@ == pool.skip(i as int)[0]);
                assert(pool.skip(i as int)[0] == pool[i as int]);
                assert(old(self).mempool_view()[i as int].wf());
                assert(self.mempool@ == pre_pop.subrange(1, pre_pop.len() as int));
            }
            txs_vec.push(tx);
            i = i + 1;
            proof {
                assert(views_of_txs(txs_vec@) =~= pool.take(i as int));
                assert(views_of_txs(self.mempool@).len() == pool.skip(i as int).len());
                assert forall|q: int| 0 <= q < views_of_txs(self.mempool@).len() implies
                    views_of_txs(self.mempool@)[q] == pool.skip(i as int)[q] by {
                    assert(self.mempool@[q] == pre_pop[q + 1]);
                    assert(views_of_txs(pre_pop)[q + 1] == pool.skip(i - 1)[q + 1]);
                    assert(pool.skip(i - 1)[q + 1] == pool[i + q]);
                    assert(pool.skip(i as int)[q] == pool[i + q]);
                }
                assert(views_of_txs(self.mempool@) =~= pool.skip(i as int));
            }
        }

        proof {
            assert forall|q: int| 0 <= q < self.mempool_view().len() implies (
            #[trigger] self.mempool_view()[q]).wf() by {
                assert(self.mempool_view()[q] == pool[q + k]);
            }
            assert(self.wf());
        }
        let ghost post_drain = *self;
        let mut j: usize = 0;
        while j < txs_vec.len()
            invariant
                j <= txs_vec@.len(),
                forall|m: int| 0 <= m < txs_vec@.len() ==> (#[trigger] txs_vec@[m])@.wf(),
                old(self).keypair_spec() is Some,
                old(self).validators_view().contains(
                    spec_address_of_public_key(
                        ed25519_public_key_of(old(self).keypair_spec().unwrap().seed_view()),
                    ),
                ),
                post_drain.wf(),
                post_drain.validators_view() == old(self).validators_view(),
                post_drain.cursor() == old(self).cursor(),
                post_drain.keypair_spec() == old(self).keypair_spec(),
                post_drain.cfg() == old(self).cfg(),
                post_drain.lgr() == old(self).lgr(),
                post_drain.mempool_view() == old(self).mempool_view().skip(
                    spec_batch_len(old(self).cfg().max_tx_per_block, old(self).mempool_view().len()),
                ),
                self.lgr().same_chain_state(post_drain.lgr()),
                post_drain.lgr().same_chain_state(self.lgr()),
                self.lgr().accounts_map() == spec_apply_batch(
                    post_drain.lgr().accounts_map(),
                    views_of_txs(txs_vec@).take(j as int),
                ),
                self.mempool_view() == post_drain.mempool_view(),
                self.validators_view() == post_drain.validators_view(),
                self.cursor() == post_drain.cursor(),
                self.keypair_spec() == post_drain.keypair_spec(),
                self.cfg() == post_drain.cfg(),
            decreases txs_vec@.len() - j,
        {
            let ghost pre_apply = self.lgr();
            let outcome = self.ledger.apply_transaction(&txs_vec[j]);
            proof {
                let t = txs_vec@[j as int]@;
                match outcome {
                    Ok(_) => {
                        assert(self.lgr().accounts_map() =~= spec_apply_one(
                            pre_apply.accounts_map(),
                            t,
                        ));
                    },
                    Err(LedgerError::DatabaseError(_)) => {},
                    Err(_) => {
                        assert(self.lgr().accounts_map() =~= spec_apply_one(
                            pre_apply.accounts_map(),
                            t,
                        ));
                    },
                }
            }
            match outcome {
                Ok(_) => {},
                Err(LedgerError::DatabaseError(m)) => {
                    proof {
                        assert(self.wf());
                    }
                    return Err(ConsensusError::LedgerError(LedgerError::DatabaseError(m)));
                },
                Err(_) => {},
            }
            j = j + 1;
            proof {
                lemma_apply_batch_snoc(
                    post_drain.lgr().accounts_map(),
                    views_of_txs(txs_vec@).take(j - 1),
                    txs_vec@[j - 1]@,
                );
                assert(views_of_txs(txs_vec@).take(j as int) =~= views_of_txs(txs_vec@).take(
                    j - 1,
                ).push(txs_vec@[j - 1]@));
            }
        }

        let mut tx_hashes: Vec<Vec<u8>> = Vec::new();
        let mut m: usize = 0;
        while m < txs_vec.len()
            invariant
                m <= txs_vec@.len(),
                forall|q: int| 0 <= q < txs_vec@.len() ==> (#[trigger] txs_vec@[q])@.wf(),
                tx_hashes@.len() == m,
                forall|q: int| 0 <= q < m ==> (#[trigger] tx_hashes@[q])@ == txs_vec@[q]@.hash,
            decreases txs_vec@.len() - m,
        {
            tx_hashes.push(copy_bytes(txs_vec[m].hash.as_slice()));
            m = m + 1;
        }
        proof {
            assert(views_of_bytes(tx_hashes@) =~= spec_tx_hashes(views_of_txs(txs_vec@)));
            assert(forall|q: int|
                0 <= q < tx_hashes@.len() ==> (#[trigger] tx_hashes@[q])@.len() == 32);
        }
        let merkle_root = compute_merkle_root(&tx_hashes);

        let height_bytes = u64_to_be_bytes(new_height);
        let state_root = hash_bytes(height_bytes.as_slice());

        let mut header = BlockHeader {
            version: 1,
            height: new_height,
            timestamp,
            prev_hash: prev_block.hash,
            merkle_root,
            state_root,
            validator: validator_address,
            signature: Signature::default(),
        };
        let header_digest = hash_block_header(&header);
        let signature = kp.sign(header_digest.as_slice());
        let ghost unsigned = header@;
        header.signature = signature;
        proof {
            assert(crate::crypto::spec_header_preimage(header@)
                == crate::crypto::spec_header_preimage(unsigned));
        }
        let block_hash = hash_block_header(&header);
        let block = Block { header, transactions: txs_vec, hash: block_hash };
        proof {
            assert(block@.transactions =~= views_of_txs(block.transactions@));
            assert(block@.wf());
            assert(views_of_txs(block.transactions@).take(block.transactions@.len() as int)
                =~= block@.transactions);
        }

        let ghost pre_store = self.ledger;
        match self.ledger.store_block(&block) {
            Ok(_) => {},
            Err(e) => {
                return Err(ConsensusError::LedgerError(e));
            },
        }
        proof {
            if old(self).lgr().chain_ok() {
                lemma_chain_ok_same_chain(old(self).lgr(), pre_store);
                lemma_store_preserves_chain(pre_store, self.ledger, block@);
            }
        }
        self.rotate_validator();
        Ok(block)
    }

    /// Checks an external block against the chain: genesis is accepted;
    /// otherwise the previous block must exist, be named by `prev_hash`,
    /// the producer must be a validator, and the Merkle root must match the
    /// transactions, checked in that order. Any failure to read the
    /// previous block, store faults included, is reported as the previous
    /// block missing. The header signature is not checked here: a block
    /// names its producer only by a 20-byte address, from which no public
    /// key can be recovered, so callers that know the producer's key check
    /// it with `verify_block_signature` beside this.
    pub fn validate_block(&self, block: &Block) -> (r: Result<(), ConsensusError>)
        requires
            block@.wf(),
        ensures
            block@.header.height == 0 ==> r matches Ok(_),
            r matches Ok(_) ==> block@.header.height == 0 || (self.lgr().spec_block_at(
                (block@.header.height - 1) as u64,
            ) matches Some(p) && block@.header.prev_hash == p.hash
                && self.validators_view().contains(block@.header.validator)
                && block@.header.merkle_root == spec_merkle_root(
                spec_tx_hashes(block@.transactions),
            )),
            r matches Err(ConsensusError::InvalidBlock(msg)) ==> block@.header.height != 0 && ({
                let prev = self.lgr().spec_block_at((block@.header.height - 1) as u64);
                ||| msg@ == "Previous block not found"@
                ||| (msg@ == "Invalid previous hash"@ && prev is Some && block@.header.prev_hash
                    != prev.unwrap().hash)
                ||| (msg@ == "Block producer is not a validator"@ && prev is Some
                    && block@.header.prev_hash == prev.unwrap().hash
                    && !self.validators_view().contains(block@.header.validator))
                ||| (msg@ == "Invalid merkle root"@ && prev is Some && block@.header.prev_hash
                    == prev.unwrap().hash && self.validators_view().contains(
                    block@.header.validator,
                ) && block@.header.merkle_root != spec_merkle_root(
                    spec_tx_hashes(block@.transactions),
                ))
            }),
            r matches Err(e) ==> e matches ConsensusError::InvalidBlock(_),
    {
        if block.header.height == 0 {
            return Ok(());
        }
        let prev_block = match self.ledger.get_block(block.header.height - 1) {
            Ok(b) => b,
            Err(_) => {
                return Err(
                    ConsensusError::InvalidBlock("Previous block not found".to_owned()),
                );
            },
        };
        if !bytes_eq(block.header.prev_hash.as_slice(), prev_block.hash.as_slice()) {
            return Err(ConsensusError::InvalidBlock("Invalid previous hash".to_owned()));
        }
        if !self.is_validator(&block.header.validator) {
            return Err(
                ConsensusError::InvalidBlock("Block producer is not a validator".to_owned()),
            );
        }
        let mut tx_hashes: Vec<Vec<u8>> = Vec::new();
        let mut m: usize = 0;
        while m < block.transactions.len()
            invariant
                m <= block.transactions@.len(),
                block@.wf(),
                block@.transactions == views_of_txs(block.transactions@),
                tx_hashes@.len() == m,
                forall|q: int| 0 <= q < m ==> (#[trigger] tx_hashes@[q])@
                    == block.transactions@[q]@.hash,
            decreases block.transactions@.len() - m,
        {
            tx_hashes.push(copy_bytes(block.transactions[m].hash.as_slice()));
            m = m + 1;
        }
        proof {
            assert(views_of_bytes(tx_hashes@) =~= spec_tx_hashes(block@.transactions));
        }
        let computed_merkle = compute_merkle_root(&tx_hashes);
        if !bytes_eq(computed_merkle.as_slice(), block.header.merkle_root.as_slice()) {
            return Err(ConsensusError::InvalidBlock("Invalid merkle root".to_owned()));
        }
        Ok(())
    }
}

/// A block produced from an empty mempool carries no transactions, and its
/// Merkle commitment is the root of the empty batch: 32 zero bytes.
pub proof fn lemma_empty_batch_merkle()
    ensures
        spec_tx_hashes(Seq::<TxView>::empty()).len() == 0,
        spec_merkle_root(spec_tx_hashes(Seq::<TxView>::empty())) == zero_seq(32),
{
    assert(spec_tx_hashes(Seq::<TxView>::empty()).len() == 0);
}

/// Checks a block header's signature: the public key must hash to the
/// block's validator address, and the signature must verify over the
/// header digest (which never covers the signature itself).
pub fn verify_block_signature(block: &Block, public_key: &Vec<u8>) -> (r: Result<
    (),
    ConsensusError,
>)
    requires
        block@.wf(),
        public_key@.len() == 32,
    ensures
        r matches Ok(_) ==> spec_address_of_public_key(public_key@) == block@.header.validator
            && ed25519_valid_public_key(public_key@) && ed25519_verify_ok(
            public_key@,
            spec_header_digest(block@.header),
            block@.header.signature,
        ),
        r matches Err(ConsensusError::InvalidBlock(msg)) ==> (msg@
            == "Public key does not match block producer"@ && spec_address_of_public_key(
            public_key@,
        ) != block@.header.validator) || (msg@ == "Invalid block signature"@ && !(
        ed25519_valid_public_key(public_key@) && ed25519_verify_ok(
            public_key@,
            spec_header_digest(block@.header),
            block@.header.signature,
        ))),
        r matches Err(e) ==> e matches ConsensusError::InvalidBlock(_),
{
    let derived = crate::crypto::public_key_to_address(public_key);
    if !bytes_eq(derived.as_slice(), block.header.validator.as_slice()) {
        return Err(
            ConsensusError::InvalidBlock("Public key does not match block producer".to_owned()),
        );
    }
    let digest = hash_block_header(&block.header);
    match verify_signature(public_key, digest.as_slice(), &block.header.signature) {
        Ok(_) => Ok(()),
        Err(_) => Err(ConsensusError::InvalidBlock("Invalid block signature".to_owned())),
    }
}

} // verus!

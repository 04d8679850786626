//! Deterministic binary serialization of ledger records. The format is
//! internal to the store: fixed-width fields first, little-endian integers,
//! length-prefixed variable parts. Decoding is specified exactly and encoding
//! round-trips through it.

use vstd::prelude::*;
use vstd::bytes::{
    spec_u64_to_le_bytes, spec_u64_from_le_bytes, lemma_auto_spec_u64_to_from_le_bytes,
    u64_to_le_bytes, u64_from_le_bytes, spec_u32_to_le_bytes, spec_u32_from_le_bytes,
    lemma_auto_spec_u32_to_from_le_bytes, u32_to_le_bytes, u32_from_le_bytes,
};
use crate::bytesutil::{append_bytes, sub_bytes};
use crate::types::{
    Transaction, TxView, Account, AccountView, BlockHeader, HeaderView, Block, BlockView,
    Signature, view_opt_bytes, views_of_txs,
};

verus! {

/// Serialized form of a transaction: fixed fields, then the length-prefixed
/// data payload.
pub open spec fn spec_encode_tx(t: TxView) -> Seq<u8> {
    t.from + t.to + spec_u64_to_le_bytes(t.amount) + spec_u64_to_le_bytes(t.nonce)
        + spec_u64_to_le_bytes(t.gas_limit) + spec_u64_to_le_bytes(t.gas_price)
        + spec_u64_to_le_bytes(t.timestamp) + t.hash + t.signature
        + spec_u64_to_le_bytes(t.data.len() as u64) + t.data
}

/// The transaction encoded in `b`, if `b` is exactly one valid encoding.
pub open spec fn spec_decode_tx(b: Seq<u8>) -> Option<TxView> {
    if b.len() < 184 {
        None
    } else {
        let data_len = spec_u64_from_le_bytes(b.subrange(176, 184));
        if data_len > 0xffff_ffff || b.len() != 184 + data_len {
            None
        } else {
            Some(
                TxView {
                    from: b.subrange(0, 20),
                    to: b.subrange(20, 40),
                    amount: spec_u64_from_le_bytes(b.subrange(40, 48)),
                    nonce: spec_u64_from_le_bytes(b.subrange(48, 56)),
                    gas_limit: spec_u64_from_le_bytes(b.subrange(56, 64)),
                    gas_price: spec_u64_from_le_bytes(b.subrange(64, 72)),
                    timestamp: spec_u64_from_le_bytes(b.subrange(72, 80)),
                    hash: b.subrange(80, 112),
                    signature: b.subrange(112, 176),
                    data: b.subrange(184, b.len() as int),
                },
            )
        }
    }
}

pub proof fn lemma_tx_round_trip(t: TxView)
    requires
        t.wf(),
    ensures
        spec_decode_tx(spec_encode_tx(t)) == Some(t),
        spec_encode_tx(t).len() == 184 + t.data.len(),
{
    lemma_auto_spec_u64_to_from_le_bytes();
    let e = spec_encode_tx(t);
    assert(e.len() == 184 + t.data.len());
    assert(e.subrange(0, 20) =~= t.from);
    assert(e.subrange(20, 40) =~= t.to);
    assert(e.subrange(40, 48) =~= spec_u64_to_le_bytes(t.amount));
    assert(e.subrange(48, 56) =~= spec_u64_to_le_bytes(t.nonce));
    assert(e.subrange(56, 64) =~= spec_u64_to_le_bytes(t.gas_limit));
    assert(e.subrange(64, 72) =~= spec_u64_to_le_bytes(t.gas_price));
    assert(e.subrange(72, 80) =~= spec_u64_to_le_bytes(t.timestamp));
    assert(e.subrange(80, 112) =~= t.hash);
    assert(e.subrange(112, 176) =~= t.signature);
    assert(e.subrange(176, 184) =~= spec_u64_to_le_bytes(t.data.len() as u64));
    assert(e.subrange(184, e.len() as int) =~= t.data);
    assert(spec_u64_from_le_bytes(e.subrange(176, 184)) == t.data.len() as u64);
    assert(spec_decode_tx(e) matches Some(d) && d =~= t);
}

pub fn encode_transaction(t: &Transaction) -> (r: Vec<u8>)
    requires
        t@.wf(),
    ensures
        r@ == spec_encode_tx(t@),
{
    let mut out: Vec<u8> = Vec::new();
    append_bytes(&mut out, t.from.as_slice());
    append_bytes(&mut out, t.to.as_slice());
    let amount = u64_to_le_bytes(t.amount);
    append_bytes(&mut out, amount.as_slice());
    let nonce = u64_to_le_bytes(t.nonce);
    append_bytes(&mut out, nonce.as_slice());
    let gas_limit = u64_to_le_bytes(t.gas_limit);
    append_bytes(&mut out, gas_limit.as_slice());
    let gas_price = u64_to_le_bytes(t.gas_price);
    append_bytes(&mut out, gas_price.as_slice());
    let timestamp = u64_to_le_bytes(t.timestamp);
    append_bytes(&mut out, timestamp.as_slice());
    append_bytes(&mut out, t.hash.as_slice());
    append_bytes(&mut out, t.signature.bytes.as_slice());
    let data_len = u64_to_le_bytes(t.data.len() as u64);
    append_bytes(&mut out, data_len.as_slice());
    append_bytes(&mut out, t.data.as_slice());
    out
}

pub fn decode_transaction(b: &Vec<u8>) -> (r: Option<Transaction>)
    ensures
        match r {
            Some(t) => t@.wf() && spec_decode_tx(b@) == Some(t@),
            None => spec_decode_tx(b@) is None,
        },
{
    proof {
        lemma_auto_spec_u64_to_from_le_bytes();
    }
    if b.len() < 184 {
        return None;
    }
    let data_len_bytes = sub_bytes(b, 176, 184);
    let data_len = u64_from_le_bytes(data_len_bytes.as_slice());
    if data_len > 0xffff_ffff {
        return None;
    }
    if (b.len() as u64) != 184 + data_len {
        return None;
    }
    let amount_bytes = sub_bytes(b, 40, 48);
    let nonce_bytes = sub_bytes(b, 48, 56);
    let gas_limit_bytes = sub_bytes(b, 56, 64);
    let gas_price_bytes = sub_bytes(b, 64, 72);
    let timestamp_bytes = sub_bytes(b, 72, 80);
    let t = Transaction {
        from: sub_bytes(b, 0, 20),
        to: sub_bytes(b, 20, 40),
        amount: u64_from_le_bytes(amount_bytes.as_slice()),
        nonce: u64_from_le_bytes(nonce_bytes.as_slice()),
        gas_limit: u64_from_le_bytes(gas_limit_bytes.as_slice()),
        gas_price: u64_from_le_bytes(gas_price_bytes.as_slice()),
        timestamp: u64_from_le_bytes(timestamp_bytes.as_slice()),
        hash: sub_bytes(b, 80, 112),
        signature: Signature::from_bytes(sub_bytes(b, 112, 176)),
        data: sub_bytes(b, 184, b.len()),
    };
    proof {
        assert(spec_decode_tx(b@) matches Some(d) && d =~= t@);
    }
    Some(t)
}

/// Serialized form of an optional 32-byte hash: a presence tag, then the
/// bytes when present.
pub open spec fn spec_encode_opt_hash(o: Option<Seq<u8>>) -> Seq<u8> {
    match o {
        None => seq![0u8],
        Some(h) => seq![1u8] + h,
    }
}

/// Serialized form of an account record.
pub open spec fn spec_encode_account(a: AccountView) -> Seq<u8> {
    a.address + spec_u64_to_le_bytes(a.balance) + spec_u64_to_le_bytes(a.nonce)
        + spec_encode_opt_hash(a.code_hash) + spec_encode_opt_hash(a.storage_root)
}

/// The account encoded in `b`, if `b` is exactly one valid encoding.
pub open spec fn spec_decode_account(b: Seq<u8>) -> Option<AccountView> {
    if b.len() < 38 {
        None
    } else {
        let address = b.subrange(0, 20);
        let balance = spec_u64_from_le_bytes(b.subrange(20, 28));
        let nonce = spec_u64_from_le_bytes(b.subrange(28, 36));
        if b[36] == 0u8 {
            if b[37] == 0u8 {
                if b.len() == 38 {
                    Some(AccountView { address, balance, nonce, code_hash: None, storage_root: None })
                } else {
                    None
                }
            } else if b[37] == 1u8 && b.len() == 70 {
                Some(
                    AccountView {
                        address,
                        balance,
                        nonce,
                        code_hash: None,
                        storage_root: Some(b.subrange(38, 70)),
                    },
                )
            } else {
                None
            }
        } else if b[36] == 1u8 && b.len() >= 70 {
            let code_hash = Some(b.subrange(37, 69));
            if b[69] == 0u8 {
                if b.len() == 70 {
                    Some(AccountView { address, balance, nonce, code_hash, storage_root: None })
                } else {
                    None
                }
            } else if b[69] == 1u8 && b.len() == 102 {
                Some(
                    AccountView {
                        address,
                        balance,
                        nonce,
                        code_hash,
                        storage_root: Some(b.subrange(70, 102)),
                    },
                )
            } else {
                None
            }
        } else {
            None
        }
    }
}

pub proof fn lemma_account_round_trip(a: AccountView)
    requires
        a.wf(),
    ensures
        spec_decode_account(spec_encode_account(a)) == Some(a),
{
    lemma_auto_spec_u64_to_from_le_bytes();
    let e = spec_encode_account(a);
    assert(e.subrange(0, 20) =~= a.address);
    assert(e.subrange(20, 28) =~= spec_u64_to_le_bytes(a.balance));
    assert(e.subrange(28, 36) =~= spec_u64_to_le_bytes(a.nonce));
    match a.code_hash {
        None => {
            assert(e[36] == 0u8);
            match a.storage_root {
                None => {
                    assert(e.len() == 38);
                    assert(e[37] == 0u8);
                },
                Some(r) => {
                    assert(e.len() == 70);
                    assert(e[37] == 1u8);
                    assert(e.subrange(38, 70) =~= r);
                },
            }
        },
        Some(c) => {
            assert(e[36] == 1u8);
            assert(e.subrange(37, 69) =~= c);
            match a.storage_root {
                None => {
                    assert(e.len() == 70);
                    assert(e[69] == 0u8);
                },
                Some(r) => {
                    assert(e.len() == 102);
                    assert(e[69] == 1u8);
                    assert(e.subrange(70, 102) =~= r);
                },
            }
        },
    }
    assert(spec_decode_account(e) matches Some(d) && d =~= a);
}

fn encode_opt_hash(out: &mut Vec<u8>, o: &Option<Vec<u8>>)
    ensures
        final(out)@ == old(out)@ + spec_encode_opt_hash(view_opt_bytes(*o)),
{
    match o {
        None => {
            out.push(0u8);
            proof {
                assert(out@ =~= old(out)@ + spec_encode_opt_hash(view_opt_bytes(*o)));
            }
        },
        Some(h) => {
            out.push(1u8);
            append_bytes(out, h.as_slice());
            proof {
                assert(out@ =~= old(out)@ + spec_encode_opt_hash(view_opt_bytes(*o)));
            }
        },
    }
}

pub fn encode_account(a: &Account) -> (r: Vec<u8>)
    requires
        a@.wf(),
    ensures
        r@ == spec_encode_account(a@),
{
    let mut out: Vec<u8> = Vec::new();
    append_bytes(&mut out, a.address.as_slice());
    let balance = u64_to_le_bytes(a.balance);
    append_bytes(&mut out, balance.as_slice());
    let nonce = u64_to_le_bytes(a.nonce);
    append_bytes(&mut out, nonce.as_slice());
    encode_opt_hash(&mut out, &a.code_hash);
    encode_opt_hash(&mut out, &a.storage_root);
    out
}

pub fn decode_account(b: &Vec<u8>) -> (r: Option<Account>)
    ensures
        match r {
            Some(a) => a@.wf() && spec_decode_account(b@) == Some(a@),
            None => spec_decode_account(b@) is None,
        },
{
    proof {
        lemma_auto_spec_u64_to_from_le_bytes();
    }
    if b.len() < 38 {
        return None;
    }
    let address = sub_bytes(b, 0, 20);
    let balance_bytes = sub_bytes(b, 20, 28);
    let balance = u64_from_le_bytes(balance_bytes.as_slice());
    let nonce_bytes = sub_bytes(b, 28, 36);
    let nonce = u64_from_le_bytes(nonce_bytes.as_slice());
    let tag1 = b[36];
    if tag1 == 0 {
        let tag2 = b[37];
        if tag2 == 0 {
            if b.len() == 38 {
                let a = Account { address, balance, nonce, code_hash: None, storage_root: None };
                proof {
                    assert(spec_decode_account(b@) matches Some(d) && d =~= a@);
                }
                Some(a)
            } else {
                None
            }
        } else if tag2 == 1 && b.len() == 70 {
            let a = Account {
                address,
                balance,
                nonce,
                code_hash: None,
                storage_root: Some(sub_bytes(b, 38, 70)),
            };
            proof {
                assert(spec_decode_account(b@) matches Some(d) && d =~= a@);
            }
            Some(a)
        } else {
            None
        }
    } else if tag1 == 1 && b.len() >= 70 {
        let code_hash = Some(sub_bytes(b, 37, 69));
        let tag2 = b[69];
        if tag2 == 0 {
            if b.len() == 70 {
                let a = Account { address, balance, nonce, code_hash, storage_root: None };
                proof {
                    assert(spec_decode_account(b@) matches Some(d) && d =~= a@);
                }
                Some(a)
            } else {
                None
            }
        } else if tag2 == 1 && b.len() == 102 {
            let a = Account {
                address,
                balance,
                nonce,
                code_hash,
                storage_root: Some(sub_bytes(b, 70, 102)),
            };
            proof {
                assert(spec_decode_account(b@) matches Some(d) && d =~= a@);
            }
            Some(a)
        } else {
            None
        }
    } else {
        None
    }
}

/// Serialized form of a block header: 200 bytes, fixed layout.
pub open spec fn spec_encode_header(h: HeaderView) -> Seq<u8> {
    spec_u32_to_le_bytes(h.version) + spec_u64_to_le_bytes(h.height)
        + spec_u64_to_le_bytes(h.timestamp) + h.prev_hash + h.merkle_root + h.state_root
        + h.validator + h.signature
}

/// The header encoded in the first 200 bytes of `b`.
pub open spec fn spec_decode_header(b: Seq<u8>) -> HeaderView
    recommends
        b.len() == 200,
{
    HeaderView {
        version: spec_u32_from_le_bytes(b.subrange(0, 4)),
        height: spec_u64_from_le_bytes(b.subrange(4, 12)),
        timestamp: spec_u64_from_le_bytes(b.subrange(12, 20)),
        prev_hash: b.subrange(20, 52),
        merkle_root: b.subrange(52, 84),
        state_root: b.subrange(84, 116),
        validator: b.subrange(116, 136),
        signature: b.subrange(136, 200),
    }
}

pub proof fn lemma_header_round_trip(h: HeaderView)
    requires
        h.wf(),
    ensures
        spec_encode_header(h).len() == 200,
        spec_decode_header(spec_encode_header(h)) == h,
{
    lemma_auto_spec_u64_to_from_le_bytes();
    lemma_auto_spec_u32_to_from_le_bytes();
    let e = spec_encode_header(h);
    assert(e.subrange(0, 4) =~= spec_u32_to_le_bytes(h.version));
    assert(e.subrange(4, 12) =~= spec_u64_to_le_bytes(h.height));
    assert(e.subrange(12, 20) =~= spec_u64_to_le_bytes(h.timestamp));
    assert(e.subrange(20, 52) =~= h.prev_hash);
    assert(e.subrange(52, 84) =~= h.merkle_root);
    assert(e.subrange(84, 116) =~= h.state_root);
    assert(e.subrange(116, 136) =~= h.validator);
    assert(e.subrange(136, 200) =~= h.signature);
    assert(spec_decode_header(e) =~= h);
}

pub fn encode_header(h: &BlockHeader) -> (r: Vec<u8>)
    requires
        h@.wf(),
    ensures
        r@ == spec_encode_header(h@),
        r@.len() == 200,
{
    let mut out: Vec<u8> = Vec::new();
    let version = u32_to_le_bytes(h.version);
    append_bytes(&mut out, version.as_slice());
    let height = u64_to_le_bytes(h.height);
    append_bytes(&mut out, height.as_slice());
    let timestamp = u64_to_le_bytes(h.timestamp);
    append_bytes(&mut out, timestamp.as_slice());
    append_bytes(&mut out, h.prev_hash.as_slice());
    append_bytes(&mut out, h.merkle_root.as_slice());
    append_bytes(&mut out, h.state_root.as_slice());
    append_bytes(&mut out, h.validator.as_slice());
    append_bytes(&mut out, h.signature.bytes.as_slice());
    proof {
        lemma_auto_spec_u64_to_from_le_bytes();
        lemma_auto_spec_u32_to_from_le_bytes();
    }
    out
}

pub fn decode_header(b: &Vec<u8>) -> (r: BlockHeader)
    requires
        b@.len() == 200,
    ensures
        r@ == spec_decode_header(b@),
        r@.wf(),
{
    proof {
        lemma_auto_spec_u64_to_from_le_bytes();
        lemma_auto_spec_u32_to_from_le_bytes();
    }
    let version_bytes = sub_bytes(b, 0, 4);
    let height_bytes = sub_bytes(b, 4, 12);
    let timestamp_bytes = sub_bytes(b, 12, 20);
    let h = BlockHeader {
        version: u32_from_le_bytes(version_bytes.as_slice()),
        height: u64_from_le_bytes(height_bytes.as_slice()),
        timestamp: u64_from_le_bytes(timestamp_bytes.as_slice()),
        prev_hash: sub_bytes(b, 20, 52),
        merkle_root: sub_bytes(b, 52, 84),
        state_root: sub_bytes(b, 84, 116),
        validator: sub_bytes(b, 116, 136),
        signature: Signature::from_bytes(sub_bytes(b, 136, 200)),
    };
    proof {
        assert(spec_decode_header(b@) =~= h@);
    }
    h
}


/// Serialized form of a transaction list: each element length-prefixed.
pub open spec fn spec_encode_txs(ts: Seq<TxView>) -> Seq<u8>
    decreases ts.len(),
{
    if ts.len() == 0 {
        Seq::empty()
    } else {
        spec_u64_to_le_bytes(spec_encode_tx(ts[0]).len() as u64) + spec_encode_tx(ts[0])
            + spec_encode_txs(ts.drop_first())
    }
}

/// Serialized form of a block: header, header digest, then the
/// count-prefixed transaction list.
pub open spec fn spec_encode_block(b: BlockView) -> Seq<u8> {
    spec_encode_header(b.header) + b.hash + spec_u64_to_le_bytes(b.transactions.len() as u64)
        + spec_encode_txs(b.transactions)
}

/// The transaction list encoded in `b`, if `b` is exactly `count`
/// length-prefixed encodings.
pub open spec fn spec_decode_txs(b: Seq<u8>, count: nat) -> Option<Seq<TxView>>
    decreases count,
{
    if count == 0 {
        if b.len() == 0 {
            Some(Seq::empty())
        } else {
            None
        }
    } else if b.len() < 8 {
        None
    } else {
        let tx_len = spec_u64_from_le_bytes(b.subrange(0, 8)) as int;
        if b.len() < 8 + tx_len {
            None
        } else {
            match spec_decode_tx(b.subrange(8, 8 + tx_len)) {
                None => None,
                Some(t) => match spec_decode_txs(
                    b.subrange(8 + tx_len, b.len() as int),
                    (count - 1) as nat,
                ) {
                    None => None,
                    Some(rest) => Some(seq![t] + rest),
                },
            }
        }
    }
}

/// The block encoded in `b`, if `b` is exactly one valid encoding.
pub open spec fn spec_decode_block(b: Seq<u8>) -> Option<BlockView> {
    if b.len() < 240 {
        None
    } else {
        let header = spec_decode_header(b.subrange(0, 200));
        let hash = b.subrange(200, 232);
        let count = spec_u64_from_le_bytes(b.subrange(232, 240));
        if count > 0xffff_ffff {
            None
        } else {
            match spec_decode_txs(b.subrange(240, b.len() as int), count as nat) {
                None => None,
                Some(ts) => Some(BlockView { header, transactions: ts, hash }),
            }
        }
    }
}

pub proof fn lemma_encode_txs_snoc(ts: Seq<TxView>, t: TxView)
    ensures
        spec_encode_txs(ts.push(t)) == spec_encode_txs(ts)
            + spec_u64_to_le_bytes(spec_encode_tx(t).len() as u64) + spec_encode_tx(t),
    decreases ts.len(),
{
    reveal_with_fuel(spec_encode_txs, 2);
    let piece = spec_u64_to_le_bytes(spec_encode_tx(t).len() as u64) + spec_encode_tx(t);
    if ts.len() == 0 {
        assert(ts.push(t)[0] == t);
        assert(ts.push(t).drop_first() =~= Seq::<TxView>::empty());
        assert(spec_encode_txs(ts.push(t)) =~= spec_encode_txs(ts) + piece);
    } else {
        assert(ts.push(t)[0] == ts[0]);
        assert(ts.push(t).drop_first() =~= ts.drop_first().push(t));
        lemma_encode_txs_snoc(ts.drop_first(), t);
        assert(spec_encode_txs(ts.push(t)) =~= spec_encode_txs(ts) + piece);
    }
}

pub proof fn lemma_txs_round_trip(ts: Seq<TxView>)
    requires
        forall|i: int| 0 <= i < ts.len() ==> (#[trigger] ts[i]).wf(),
    ensures
        spec_decode_txs(spec_encode_txs(ts), ts.len()) == Some(ts),
    decreases ts.len(),
{
    lemma_auto_spec_u64_to_from_le_bytes();
    if ts.len() == 0 {
        assert(spec_decode_txs(spec_encode_txs(ts), 0) matches Some(s) && s =~= ts);
    } else {
        let t0 = ts[0];
        let e0 = spec_encode_tx(t0);
        lemma_tx_round_trip(t0);
        let rest_enc = spec_encode_txs(ts.drop_first());
        let e = spec_encode_txs(ts);
        assert(e == spec_u64_to_le_bytes(e0.len() as u64) + e0 + rest_enc);
        assert(e.len() == 8 + e0.len() + rest_enc.len());
        assert(e.subrange(0, 8) =~= spec_u64_to_le_bytes(e0.len() as u64));
        assert(spec_u64_from_le_bytes(e.subrange(0, 8)) == e0.len() as u64);
        assert(e.subrange(8, 8 + e0.len() as int) =~= e0);
        assert(e.subrange(8 + e0.len() as int, e.len() as int) =~= rest_enc);
        lemma_txs_round_trip(ts.drop_first());
        assert(spec_decode_txs(rest_enc, ts.drop_first().len()) == Some(ts.drop_first()));
        assert(seq![t0] + ts.drop_first() =~= ts);
        assert(spec_decode_txs(e, ts.len()) == Some(ts));
    }
}

pub proof fn lemma_block_round_trip(b: BlockView)
    requires
        b.wf(),
    ensures
        spec_decode_block(spec_encode_block(b)) == Some(b),
{
    lemma_auto_spec_u64_to_from_le_bytes();
    lemma_header_round_trip(b.header);
    lemma_txs_round_trip(b.transactions);
    let e = spec_encode_block(b);
    let he = spec_encode_header(b.header);
    let te = spec_encode_txs(b.transactions);
    assert(e.len() == 240 + te.len());
    assert(e.subrange(0, 200) =~= he);
    assert(e.subrange(200, 232) =~= b.hash);
    assert(e.subrange(232, 240) =~= spec_u64_to_le_bytes(b.transactions.len() as u64));
    assert(spec_u64_from_le_bytes(e.subrange(232, 240)) == b.transactions.len() as u64);
    assert(e.subrange(240, e.len() as int) =~= te);
    assert(spec_decode_block(e) matches Some(d) && d =~= b);
}

pub fn encode_block(blk: &Block) -> (r: Vec<u8>)
    requires
        blk@.wf(),
    ensures
        r@ == spec_encode_block(blk@),
{
    let mut out = encode_header(&blk.header);
    append_bytes(&mut out, blk.hash.as_slice());
    let count = u64_to_le_bytes(blk.transactions.len() as u64);
    append_bytes(&mut out, count.as_slice());
    let ghost prefix: Seq<u8> = out@;
    let mut i: usize = 0;
    while i < blk.transactions.len()
        invariant
            i <= blk.transactions@.len(),
            blk@.wf(),
            blk@.transactions == views_of_txs(blk.transactions@),
            out@ == prefix + spec_encode_txs(blk@.transactions.take(i as int)),
        decreases blk.transactions@.len() - i,
    {
        proof {
            assert(blk@.transactions[i as int] == blk.transactions@[i as int]@);
            assert(blk@.transactions[i as int].wf());
        }
        let tx_bytes = encode_transaction(&blk.transactions[i]);
        let len_prefix = u64_to_le_bytes(tx_bytes.len() as u64);
        append_bytes(&mut out, len_prefix.as_slice());
        append_bytes(&mut out, tx_bytes.as_slice());
        proof {
            lemma_encode_txs_snoc(blk@.transactions.take(i as int), blk@.transactions[i as int]);
            assert(blk@.transactions.take(i + 1) =~= blk@.transactions.take(i as int).push(
                blk@.transactions[i as int],
            ));
            assert(out@ =~= prefix + spec_encode_txs(blk@.transactions.take(i + 1)));
        }
        i = i + 1;
    }
    proof {
        assert(blk@.transactions.take(blk.transactions@.len() as int) =~= blk@.transactions);
        assert(out@ =~= spec_encode_block(blk@));
    }
    out
}

pub fn decode_block(b: &Vec<u8>) -> (r: Option<Block>)
    ensures
        match r {
            Some(blk) => blk@.wf() && spec_decode_block(b@) == Some(blk@),
            None => spec_decode_block(b@) is None,
        },
{
    proof {
        lemma_auto_spec_u64_to_from_le_bytes();
    }
    if b.len() < 240 {
        return None;
    }
    let header_bytes = sub_bytes(b, 0, 200);
    let header = decode_header(&header_bytes);
    let hash = sub_bytes(b, 200, 232);
    let count_bytes = sub_bytes(b, 232, 240);
    let count = u64_from_le_bytes(count_bytes.as_slice());
    if count > 0xffff_ffff {
        return None;
    }
    let count_usize = count as usize;
    let blen = b.len();
    let ghost whole: Seq<u8> = b@.subrange(240, b@.len() as int);
    let mut txs: Vec<Transaction> = Vec::new();
    let mut off: usize = 240;
    let mut i: usize = 0;
    while i < count_usize
        invariant
            240 <= off <= blen,
            blen == b@.len(),
            i <= count_usize,
            count_usize == count,
            count <= 0xffff_ffff,
            count == spec_u64_from_le_bytes(b@.subrange(232, 240)),
            whole == b@.subrange(240, b@.len() as int),
            txs@.len() == i,
            forall|j: int| 0 <= j < i ==> (#[trigger] txs@[j])@.wf(),
            spec_decode_txs(whole, count as nat) == (match spec_decode_txs(
                b@.subrange(off as int, blen as int),
                (count - i) as nat,
            ) {
                Some(rest) => Some(views_of_txs(txs@) + rest),
                None => None::<Seq<TxView>>,
            }),
        decreases count_usize - i,
    {
        let ghost seg = b@.subrange(off as int, blen as int);
        proof {
            assert((count - i) as nat != 0);
        }
        if blen - off < 8 {
            proof {
                assert(seg.len() < 8);
                assert(spec_decode_txs(whole, count as nat) is None);
            }
            return None;
        }
        let len_bytes = sub_bytes(b, off, off + 8);
        proof {
            assert(len_bytes@ =~= seg.subrange(0, 8));
        }
        let tx_len = u64_from_le_bytes(len_bytes.as_slice());
        if ((blen - off - 8) as u64) < tx_len {
            proof {
                assert(seg.len() < 8 + spec_u64_from_le_bytes(seg.subrange(0, 8)));
                assert(spec_decode_txs(whole, count as nat) is None);
            }
            return None;
        }
        let tx_len_usize = tx_len as usize;
        let chunk = sub_bytes(b, off + 8, off + 8 + tx_len_usize);
        proof {
            assert(chunk@ =~= seg.subrange(8, 8 + tx_len as int));
        }
        match decode_transaction(&chunk) {
            None => {
                proof {
                    assert(spec_decode_tx(seg.subrange(8, 8 + tx_len as int)) is None);
                    assert(spec_decode_txs(whole, count as nat) is None);
                }
                return None;
            },
            Some(t) => {
                proof {
                    let tail = b@.subrange(off + 8 + tx_len as int, blen as int);
                    assert(seg.subrange(8 + tx_len as int, seg.len() as int) =~= tail);
                    assert(spec_decode_txs(seg, (count - i) as nat) == (match spec_decode_txs(
                        tail,
                        (count - i - 1) as nat,
                    ) {
                        Some(rest) => Some(seq![t@] + rest),
                        None => None::<Seq<TxView>>,
                    }));
                }
                txs.push(t);
                proof {
                    let tail = b@.subrange(off + 8 + tx_len as int, blen as int);
                    match spec_decode_txs(tail, (count - i - 1) as nat) {
                        Some(rest) => {
                            assert(views_of_txs(txs@) =~= views_of_txs(txs@.drop_last()).push(t@));
                            assert(views_of_txs(txs@.drop_last()) + (seq![t@] + rest)
                                =~= views_of_txs(txs@) + rest);
                        },
                        None => {},
                    }
                }
                off = off + 8 + tx_len_usize;
                i = i + 1;
            },
        }
    }
    if off != blen {
        proof {
            assert(b@.subrange(off as int, blen as int).len() != 0);
            assert(spec_decode_txs(whole, count as nat) is None);
        }
        return None;
    }
    let blk = Block { header, transactions: txs, hash };
    proof {
        assert(b@.subrange(off as int, blen as int).len() == 0);
        assert(spec_decode_txs(b@.subrange(off as int, blen as int), 0) == Some(Seq::<TxView>::empty()));
        assert(views_of_txs(txs@) + Seq::<TxView>::empty() =~= views_of_txs(txs@));
        assert(spec_decode_txs(whole, count as nat) == Some(views_of_txs(txs@)));
        assert(b@.subrange(0, 200) =~= header_bytes@);
        assert(b@.subrange(200, 232) =~= hash@);
        assert(b@.subrange(232, 240) =~= count_bytes@);
        assert(spec_decode_block(b@) matches Some(d) && d =~= blk@);
    }
    Some(blk)
}

} // verus!

//! Cryptographic layer: SHA-256 content hashing, Ed25519 keypairs and
//! signatures, address derivation, Merkle-root aggregation and the textual
//! hex codec for addresses and hashes.
//!
//! The hash and signature primitives are outside calls; their results are
//! named by uninterpreted functions and everything built on top of them is
//! verified against those names.

use vstd::prelude::*;
use vstd::bytes::{spec_u64_to_le_bytes, spec_u32_to_le_bytes, u64_to_le_bytes, u32_to_le_bytes};
use vstd::string::StringExecFns;
use vstd::string::StrSliceExecFns;
use crate::bytesutil::{zero_seq, zero_bytes, copy_bytes, append_bytes, sub_bytes};
use crate::types::{Transaction, TxView, BlockHeader, HeaderView, Signature};
use sha2::Digest;
use ed25519_dalek::Signer;
use ed25519_dalek::Verifier;

verus! {

#[derive(Debug, PartialEq, Eq)]
pub enum CryptoError {
    InvalidSignature,
    InvalidPublicKey,
    SigningError(String),
}

/// The SHA-256 digest of a byte sequence. The digest is a pure function of
/// the input; its 32-byte length is stated where the call is made.
pub uninterp spec fn sha256_of(data: Seq<u8>) -> Seq<u8>;

/// Relies on sha2::Sha256 (update/finalize): the digest is 32 bytes and
/// depends on the input bytes alone.
#[verifier::external_body]
pub fn hash_bytes(data: &[u8]) -> (r: Vec<u8>)
    ensures
        r@ == sha256_of(data@),
        r@.len() == 32,
{
    let mut hasher = sha2::Sha256::new();
    hasher.update(data);
    hasher.finalize().to_vec()
}

/// The Ed25519 public key derived from a 32-byte seed.
pub uninterp spec fn ed25519_public_key_of(seed: Seq<u8>) -> Seq<u8>;

/// The Ed25519 signature over a message under the key with the given seed.
/// Ed25519 signing is deterministic, so the signature is a function of the
/// seed and the message alone.
pub uninterp spec fn ed25519_signature_of(seed: Seq<u8>, message: Seq<u8>) -> Seq<u8>;

/// Whether 32 bytes are a canonical Ed25519 public key.
pub uninterp spec fn ed25519_valid_public_key(pk: Seq<u8>) -> bool;

/// Whether a signature verifies over a message under a public key.
pub uninterp spec fn ed25519_verify_ok(pk: Seq<u8>, message: Seq<u8>, sig: Seq<u8>) -> bool;

/// An Ed25519 keypair held as its 32-byte seed.
pub struct Keypair {
    seed: Vec<u8>,
}

impl Keypair {
    /// The seed this keypair was built from.
    pub closed spec fn seed_view(self) -> Seq<u8> {
        self.seed@
    }

    pub open spec fn wf(self) -> bool {
        self.seed_view().len() == 32
    }

    /// Relies on ed25519_dalek::SigningKey::generate with rand's OsRng: a
    /// keypair from a cryptographic RNG. Nothing is promised of the seed
    /// beyond its length.
    #[verifier::external_body]
    pub fn generate() -> (kp: Self)
        ensures
            kp.wf(),
    {
        let mut csprng = rand::rngs::OsRng;
        let signing_key = ed25519_dalek::SigningKey::generate(&mut csprng);
        Keypair { seed: signing_key.to_bytes().to_vec() }
    }

    /// A keypair from a 32-byte seed; any 32 bytes are a valid seed.
    pub fn from_bytes(bytes: &Vec<u8>) -> (r: Result<Self, CryptoError>)
        ensures
            match r {
                Ok(kp) => bytes@.len() == 32 && kp.seed_view() == bytes@ && kp.wf(),
                Err(e) => bytes@.len() != 32 && e == CryptoError::InvalidPublicKey,
            },
    {
        if bytes.len() != 32 {
            return Err(CryptoError::InvalidPublicKey);
        }
        Ok(Keypair { seed: copy_bytes(bytes.as_slice()) })
    }

    /// Relies on ed25519_dalek::SigningKey::{from_bytes, verifying_key}: the
    /// 32-byte public key is a pure function of the seed (RFC 8032).
    #[verifier::external_body]
    pub fn public_key(&self) -> (r: Vec<u8>)
        requires
            self.wf(),
        ensures
            r@ == ed25519_public_key_of(self.seed_view()),
            r@.len() == 32,
            ed25519_valid_public_key(r@),
    {
        let mut seed = [0u8; 32];
        seed.copy_from_slice(&self.seed);
        let signing_key = ed25519_dalek::SigningKey::from_bytes(&seed);
        signing_key.verifying_key().to_bytes().to_vec()
    }

    /// The 20-byte address of this keypair's public key.
    pub fn address(&self) -> (r: Vec<u8>)
        requires
            self.wf(),
        ensures
            r@ == spec_address_of_public_key(ed25519_public_key_of(self.seed_view())),
            r@.len() == 20,
    {
        let pk = self.public_key();
        public_key_to_address(&pk)
    }

    /// Relies on ed25519_dalek::SigningKey::sign (RFC 8032): signing is
    /// deterministic in the seed and message, yields 64 bytes, and the
    /// signature verifies under the derived public key.
    #[verifier::external_body]
    pub fn sign(&self, message: &[u8]) -> (sig: Signature)
        requires
            self.wf(),
        ensures
            sig@ == ed25519_signature_of(self.seed_view(), message@),
            sig@.len() == 64,
            ed25519_verify_ok(ed25519_public_key_of(self.seed_view()), message@, sig@),
    {
        let mut seed = [0u8; 32];
        seed.copy_from_slice(&self.seed);
        let signing_key = ed25519_dalek::SigningKey::from_bytes(&seed);
        let signature = signing_key.sign(message);
        Signature { bytes: signature.to_bytes().to_vec() }
    }

    /// The 32-byte seed of this keypair.
    pub fn to_bytes(&self) -> (r: Vec<u8>)
        ensures
            r@ == self.seed_view(),
    {
        copy_bytes(self.seed.as_slice())
    }
}

impl Clone for Keypair {
    fn clone(&self) -> (kp: Self)
        ensures
            kp.seed_view() == self.seed_view(),
    {
        Keypair { seed: copy_bytes(self.seed.as_slice()) }
    }
}

/// Relies on ed25519_dalek::VerifyingKey::{from_bytes, verify}: key parsing
/// and verification are pure functions of the key, message and signature
/// bytes. A non-canonical key is rejected as such; otherwise verification
/// succeeds exactly for signatures that verify.
#[verifier::external_body]
pub fn verify_signature(public_key: &Vec<u8>, message: &[u8], signature: &Signature) -> (r:
    Result<(), CryptoError>)
    requires
        public_key@.len() == 32,
        signature@.len() == 64,
    ensures
        match r {
            Ok(_) => ed25519_valid_public_key(public_key@) && ed25519_verify_ok(
                public_key@,
                message@,
                signature@,
            ),
            Err(CryptoError::InvalidPublicKey) => !ed25519_valid_public_key(public_key@),
            Err(CryptoError::InvalidSignature) => ed25519_valid_public_key(public_key@)
                && !ed25519_verify_ok(public_key@, message@, signature@),
            Err(CryptoError::SigningError(_)) => false,
        },
{
    let mut pk = [0u8; 32];
    pk.copy_from_slice(public_key);
    let verifying_key = ed25519_dalek::VerifyingKey::from_bytes(&pk)
        .map_err(|_| CryptoError::InvalidPublicKey)?;
    let mut sig_bytes = [0u8; 64];
    sig_bytes.copy_from_slice(&signature.bytes);
    let sig = ed25519_dalek::Signature::from_bytes(&sig_bytes);
    verifying_key.verify(message, &sig).map_err(|_| CryptoError::InvalidSignature)
}

/// The address of a public key: the low 20 bytes of its SHA-256 digest.
pub open spec fn spec_address_of_public_key(pk: Seq<u8>) -> Seq<u8> {
    sha256_of(pk).subrange(12, 32)
}

pub fn public_key_to_address(public_key: &Vec<u8>) -> (r: Vec<u8>)
    requires
        public_key@.len() == 32,
    ensures
        r@ == spec_address_of_public_key(public_key@),
        r@.len() == 20,
{
    let hash = hash_bytes(public_key.as_slice());
    sub_bytes(&hash, 12, 32)
}

/// The hash preimage of a transaction: addresses, little-endian amounts and
/// the payload. Neither the frozen hash, the signature nor the timestamp is
/// part of it.
pub open spec fn spec_tx_preimage(t: TxView) -> Seq<u8> {
    t.from + t.to + spec_u64_to_le_bytes(t.amount) + spec_u64_to_le_bytes(t.nonce)
        + spec_u64_to_le_bytes(t.gas_limit) + spec_u64_to_le_bytes(t.gas_price) + t.data
}

/// The content digest of a transaction.
pub open spec fn spec_tx_digest(t: TxView) -> Seq<u8> {
    sha256_of(spec_tx_preimage(t))
}

pub fn hash_transaction(tx: &Transaction) -> (r: Vec<u8>)
    ensures
        r@ == spec_tx_digest(tx@),
        r@.len() == 32,
{
    let mut data: Vec<u8> = Vec::new();
    append_bytes(&mut data, tx.from.as_slice());
    append_bytes(&mut data, tx.to.as_slice());
    let amount = u64_to_le_bytes(tx.amount);
    append_bytes(&mut data, amount.as_slice());
    let nonce = u64_to_le_bytes(tx.nonce);
    append_bytes(&mut data, nonce.as_slice());
    let gas_limit = u64_to_le_bytes(tx.gas_limit);
    append_bytes(&mut data, gas_limit.as_slice());
    let gas_price = u64_to_le_bytes(tx.gas_price);
    append_bytes(&mut data, gas_price.as_slice());
    append_bytes(&mut data, tx.data.as_slice());
    proof {
        assert(data@ =~= spec_tx_preimage(tx@));
    }
    hash_bytes(data.as_slice())
}

/// The digest preimage of a block header. The signature is not part of it,
/// so the digest of a signed header equals the digest that was signed.
pub open spec fn spec_header_preimage(h: HeaderView) -> Seq<u8> {
    spec_u32_to_le_bytes(h.version) + spec_u64_to_le_bytes(h.height)
        + spec_u64_to_le_bytes(h.timestamp) + h.prev_hash + h.merkle_root + h.state_root
        + h.validator
}

/// The header digest: block hash and signing target.
pub open spec fn spec_header_digest(h: HeaderView) -> Seq<u8> {
    sha256_of(spec_header_preimage(h))
}

pub fn hash_block_header(header: &BlockHeader) -> (r: Vec<u8>)
    ensures
        r@ == spec_header_digest(header@),
        r@.len() == 32,
{
    let mut data: Vec<u8> = Vec::new();
    let version = u32_to_le_bytes(header.version);
    append_bytes(&mut data, version.as_slice());
    let height = u64_to_le_bytes(header.height);
    append_bytes(&mut data, height.as_slice());
    let timestamp = u64_to_le_bytes(header.timestamp);
    append_bytes(&mut data, timestamp.as_slice());
    append_bytes(&mut data, header.prev_hash.as_slice());
    append_bytes(&mut data, header.merkle_root.as_slice());
    append_bytes(&mut data, header.state_root.as_slice());
    append_bytes(&mut data, header.validator.as_slice());
    proof {
        assert(data@ =~= spec_header_preimage(header@));
    }
    hash_bytes(data.as_slice())
}

/// One reduction of a Merkle level: adjacent pairs hashed in order, an odd
/// trailing element paired with itself.
pub open spec fn spec_merkle_pair(a: Seq<u8>, b: Seq<u8>) -> Seq<u8> {
    sha256_of(a + b)
}

pub open spec fn spec_merkle_level(level: Seq<Seq<u8>>) -> Seq<Seq<u8>> {
    Seq::new(
        (level.len() + 1) / 2,
        |i: int|
            if 2 * i + 1 < level.len() {
                spec_merkle_pair(level[2 * i], level[2 * i + 1])
            } else {
                spec_merkle_pair(level[2 * i], level[2 * i])
            },
    )
}

/// The Merkle root of an ordered sequence of hashes: 32 zero bytes for an
/// empty input, the hash itself for one element, else the root of the
/// reduced level.
pub open spec fn spec_merkle_root(hashes: Seq<Seq<u8>>) -> Seq<u8>
    decreases hashes.len(),
{
    if hashes.len() == 0 {
        zero_seq(32)
    } else if hashes.len() == 1 {
        hashes[0]
    } else {
        spec_merkle_root(spec_merkle_level(hashes))
    }
}

/// The hashes of a batch of transactions, in order: the leaves a block's
/// Merkle root commits to.
pub open spec fn spec_tx_hashes(ts: Seq<TxView>) -> Seq<Seq<u8>> {
    Seq::new(ts.len(), |i: int| ts[i].hash)
}

/// The sequence of abstract values of a sequence of byte vectors.
pub open spec fn views_of_bytes(vs: Seq<Vec<u8>>) -> Seq<Seq<u8>> {
    Seq::new(vs.len(), |i: int| vs[i]@)
}

pub fn compute_merkle_root(hashes: &Vec<Vec<u8>>) -> (r: Vec<u8>)
    ensures
        r@ == spec_merkle_root(views_of_bytes(hashes@)),
        hashes@.len() == 0 ==> r@ == zero_seq(32),
        hashes@.len() == 1 ==> r@ == hashes@[0]@,
        (forall|i: int| 0 <= i < hashes@.len() ==> (#[trigger] hashes@[i])@.len() == 32)
            ==> r@.len() == 32,
{
    let ghost all32 = forall|i: int| 0 <= i < hashes@.len() ==> (#[trigger] hashes@[i])@.len()
        == 32;
    if hashes.len() == 0 {
        return zero_bytes(32);
    }
    let mut current: Vec<Vec<u8>> = Vec::new();
    let mut i: usize = 0;
    while i < hashes.len()
        invariant
            i <= hashes@.len(),
            current@.len() == i,
            forall|j: int| 0 <= j < i ==> (#[trigger] current@[j])@ == hashes@[j]@,
            all32 == (forall|j: int| 0 <= j < hashes@.len() ==> (#[trigger] hashes@[j])@.len()
                == 32),
        decreases hashes@.len() - i,
    {
        current.push(copy_bytes(hashes[i].as_slice()));
        i = i + 1;
    }
    proof {
        assert(views_of_bytes(current@) =~= views_of_bytes(hashes@));
    }
    while current.len() > 1
        invariant
            current@.len() >= 1,
            spec_merkle_root(views_of_bytes(current@)) == spec_merkle_root(
                views_of_bytes(hashes@),
            ),
            all32 ==> forall|j: int| 0 <= j < current@.len() ==> (#[trigger] current@[j])@.len()
                == 32,
        decreases current@.len(),
    {
        let ghost cv = views_of_bytes(current@);
        let n = current.len();
        let total = n / 2 + n % 2;
        let mut next: Vec<Vec<u8>> = Vec::new();
        let mut k: usize = 0;
        while k < total
            invariant
                k <= total,
                n == current@.len(),
                n >= 2,
                total == (cv.len() + 1) / 2,
                cv == views_of_bytes(current@),
                next@.len() == k,
                forall|m: int| 0 <= m < k ==> (#[trigger] next@[m])@ == spec_merkle_level(cv)[m],
                forall|m: int| 0 <= m < k ==> (#[trigger] next@[m])@.len() == 32,
            decreases total - k,
        {
            let a = 2 * k;
            let combined: Vec<u8>;
            if a + 1 < n {
                let mut cat = copy_bytes(current[a].as_slice());
                append_bytes(&mut cat, current[a + 1].as_slice());
                combined = hash_bytes(cat.as_slice());
            } else {
                let mut cat = copy_bytes(current[a].as_slice());
                append_bytes(&mut cat, current[a].as_slice());
                combined = hash_bytes(cat.as_slice());
            }
            proof {
                assert(combined@ == spec_merkle_level(cv)[k as int]);
            }
            next.push(combined);
            k = k + 1;
        }
        proof {
            assert(views_of_bytes(next@) =~= spec_merkle_level(cv));
            assert(spec_merkle_root(cv) == spec_merkle_root(spec_merkle_level(cv)));
        }
        current = next;
        proof {
            assert(current@.len() >= 1);
        }
    }
    let r = copy_bytes(current[0].as_slice());
    proof {
        assert(views_of_bytes(current@).len() == 1);
        assert(spec_merkle_root(views_of_bytes(current@)) == views_of_bytes(current@)[0]);
        assert(r@ == views_of_bytes(current@)[0]);
    }
    r
}

/// The root of three leaves: the left pair hashed beside the duplicated
/// third leaf, then hashed together.
pub proof fn lemma_merkle_three(h1: Seq<u8>, h2: Seq<u8>, h3: Seq<u8>)
    ensures
        spec_merkle_root(seq![h1, h2, h3]) == sha256_of(
            sha256_of(h1 + h2) + sha256_of(h3 + h3),
        ),
{
    let l0 = seq![h1, h2, h3];
    let l1 = spec_merkle_level(l0);
    assert(l1 =~= seq![spec_merkle_pair(h1, h2), spec_merkle_pair(h3, h3)]);
    let l2 = spec_merkle_level(l1);
    assert(l2 =~= seq![spec_merkle_pair(l1[0], l1[1])]);
    assert(spec_merkle_root(l0) == spec_merkle_root(l1));
    assert(spec_merkle_root(l1) == spec_merkle_root(l2));
    assert(spec_merkle_root(l2) == l2[0]);
}


/// The lowercase hex digit of a nibble.
pub open spec fn hex_char_of_nibble(n: u8) -> char
    recommends
        n < 16,
{
    if n == 0 { '0' } else if n == 1 { '1' } else if n == 2 { '2' } else if n == 3 { '3' }
    else if n == 4 { '4' } else if n == 5 { '5' } else if n == 6 { '6' } else if n == 7 { '7' }
    else if n == 8 { '8' } else if n == 9 { '9' } else if n == 10 { 'a' } else if n == 11 { 'b' }
    else if n == 12 { 'c' } else if n == 13 { 'd' } else if n == 14 { 'e' } else { 'f' }
}

/// The nibble a hex digit stands for; either case is accepted.
pub open spec fn nibble_of_hex_char(c: char) -> Option<u8> {
    if c == '0' { Some(0u8) } else if c == '1' { Some(1u8) } else if c == '2' { Some(2u8) }
    else if c == '3' { Some(3u8) } else if c == '4' { Some(4u8) } else if c == '5' { Some(5u8) }
    else if c == '6' { Some(6u8) } else if c == '7' { Some(7u8) } else if c == '8' { Some(8u8) }
    else if c == '9' { Some(9u8) } else if c == 'a' || c == 'A' { Some(10u8) }
    else if c == 'b' || c == 'B' { Some(11u8) } else if c == 'c' || c == 'C' { Some(12u8) }
    else if c == 'd' || c == 'D' { Some(13u8) } else if c == 'e' || c == 'E' { Some(14u8) }
    else if c == 'f' || c == 'F' { Some(15u8) } else { None }
}

/// The lowercase hex rendering of a byte sequence: two digits per byte.
pub open spec fn spec_hex_chars(bytes: Seq<u8>) -> Seq<char> {
    Seq::new(
        bytes.len() * 2,
        |i: int|
            if i % 2 == 0 {
                hex_char_of_nibble(bytes[i / 2] / 16)
            } else {
                hex_char_of_nibble(bytes[i / 2] % 16)
            },
    )
}

/// The bytes a hex string stands for, when every character is a hex digit
/// and their number is even.
pub open spec fn spec_hex_decode(s: Seq<char>) -> Option<Seq<u8>> {
    if s.len() % 2 == 0 && (forall|i: int|
        0 <= i < s.len() ==> nibble_of_hex_char(#[trigger] s[i]) is Some) {
        Some(
            Seq::new(
                s.len() / 2,
                |i: int|
                    ((nibble_of_hex_char(s[2 * i]).unwrap() * 16 + nibble_of_hex_char(
                        s[2 * i + 1],
                    ).unwrap()) as u8),
            ),
        )
    } else {
        None
    }
}

/// The address a textual form stands for: an optional `0x` prefix, then
/// exactly 40 hex digits.
pub open spec fn spec_parse_address(s: Seq<char>) -> Option<Seq<u8>> {
    let body = if s.len() >= 2 && s[0] == '0' && s[1] == 'x' {
        s.subrange(2, s.len() as int)
    } else {
        s
    };
    if body.len() != 40 {
        None
    } else {
        spec_hex_decode(body)
    }
}

fn hex_digit_str(n: u8) -> (r: &'static str)
    requires
        n < 16,
    ensures
        r@ == seq![hex_char_of_nibble(n)],
{
    proof {
        reveal_strlit("0");
        reveal_strlit("1");
        reveal_strlit("2");
        reveal_strlit("3");
        reveal_strlit("4");
        reveal_strlit("5");
        reveal_strlit("6");
        reveal_strlit("7");
        reveal_strlit("8");
        reveal_strlit("9");
        reveal_strlit("a");
        reveal_strlit("b");
        reveal_strlit("c");
        reveal_strlit("d");
        reveal_strlit("e");
        reveal_strlit("f");
    }
    let r: &'static str = if n == 0 { "0" } else if n == 1 { "1" } else if n == 2 { "2" }
    else if n == 3 { "3" } else if n == 4 { "4" } else if n == 5 { "5" } else if n == 6 { "6" }
    else if n == 7 { "7" } else if n == 8 { "8" } else if n == 9 { "9" } else if n == 10 { "a" }
    else if n == 11 { "b" } else if n == 12 { "c" } else if n == 13 { "d" }
    else if n == 14 { "e" } else { "f" };
    proof {
        assert(r@ =~= seq![hex_char_of_nibble(n)]);
    }
    r
}

fn push_hex_chars(s: &mut String, bytes: &Vec<u8>)
    ensures
        final(s)@ == old(s)@ + spec_hex_chars(bytes@),
{
    let mut i: usize = 0;
    while i < bytes.len()
        invariant
            i <= bytes@.len(),
            s@ == old(s)@ + spec_hex_chars(bytes@.subrange(0, i as int)),
        decreases bytes@.len() - i,
    {
        let b = bytes[i];
        let hi = hex_digit_str(b / 16);
        let lo = hex_digit_str(b % 16);
        s.append(hi);
        s.append(lo);
        proof {
            assert(s@ =~= old(s)@ + spec_hex_chars(bytes@.subrange(0, i + 1)));
        }
        i = i + 1;
    }
    proof {
        assert(bytes@.subrange(0, bytes@.len() as int) =~= bytes@);
    }
}

/// The canonical textual form of an address: `0x` then 40 lowercase hex
/// digits.
pub fn address_to_hex(address: &Vec<u8>) -> (r: String)
    requires
        address@.len() == 20,
    ensures
        r@ == seq!['0', 'x'] + spec_hex_chars(address@),
{
    proof {
        reveal_strlit("0x");
    }
    let mut s = "0x".to_owned();
    proof {
        assert(s@ =~= seq!['0', 'x']);
    }
    push_hex_chars(&mut s, address);
    s
}

/// The canonical textual form of a hash: `0x` then 64 lowercase hex digits.
pub fn hash_to_hex(hash: &Vec<u8>) -> (r: String)
    requires
        hash@.len() == 32,
    ensures
        r@ == seq!['0', 'x'] + spec_hex_chars(hash@),
{
    proof {
        reveal_strlit("0x");
    }
    let mut s = "0x".to_owned();
    proof {
        assert(s@ =~= seq!['0', 'x']);
    }
    push_hex_chars(&mut s, hash);
    s
}

fn hex_nibble(c: char) -> (r: Option<u8>)
    ensures
        r == nibble_of_hex_char(c),
{
    match c {
        '0' => Some(0u8),
        '1' => Some(1u8),
        '2' => Some(2u8),
        '3' => Some(3u8),
        '4' => Some(4u8),
        '5' => Some(5u8),
        '6' => Some(6u8),
        '7' => Some(7u8),
        '8' => Some(8u8),
        '9' => Some(9u8),
        'a' | 'A' => Some(10u8),
        'b' | 'B' => Some(11u8),
        'c' | 'C' => Some(12u8),
        'd' | 'D' => Some(13u8),
        'e' | 'E' => Some(14u8),
        'f' | 'F' => Some(15u8),
        _ => None,
    }
}

/// Parses an address from text: an optional `0x` prefix, then exactly 40
/// hex digits of either case.
pub fn hex_to_address(hex_str: &str) -> (r: Result<Vec<u8>, CryptoError>)
    ensures
        match r {
            Ok(a) => spec_parse_address(hex_str@) == Some(a@) && a@.len() == 20,
            Err(e) => e == CryptoError::InvalidPublicKey && spec_parse_address(hex_str@) is None,
        },
{
    let n = hex_str.unicode_len();
    let has_prefix = n >= 2 && hex_str.get_char(0) == '0' && hex_str.get_char(1) == 'x';
    let start: usize = if has_prefix { 2 } else { 0 };
    let ghost body: Seq<char> = if has_prefix {
        hex_str@.subrange(2, hex_str@.len() as int)
    } else {
        hex_str@
    };
    if n - start != 40 {
        return Err(CryptoError::InvalidPublicKey);
    }
    let mut out: Vec<u8> = Vec::new();
    let mut i: usize = 0;
    while i < 20
        invariant
            i <= 20,
            n == hex_str@.len(),
            start + 40 == n,
            start == 0 || start == 2,
            body == (if start == 2 {
                hex_str@.subrange(2, hex_str@.len() as int)
            } else {
                hex_str@
            }),
            body.len() == 40,
            out@.len() == i,
            forall|j: int| 0 <= j < 2 * i ==> nibble_of_hex_char(#[trigger] body[j]) is Some,
            forall|j: int| 0 <= j < i ==> out@[j] == ((nibble_of_hex_char(
                body[2 * j],
            ).unwrap() * 16 + nibble_of_hex_char(body[2 * j + 1]).unwrap()) as u8),
        decreases 20 - i,
    {
        let c_hi = hex_str.get_char(start + 2 * i);
        let c_lo = hex_str.get_char(start + 2 * i + 1);
        proof {
            assert(c_hi == body[2 * (i as int)]);
            assert(c_lo == body[2 * (i as int) + 1]);
        }
        let hi = hex_nibble(c_hi);
        let lo = hex_nibble(c_lo);
        match (hi, lo) {
            (Some(h), Some(l)) => {
                out.push(h * 16 + l);
            },
            _ => {
                proof {
                    assert(spec_hex_decode(body) is None);
                }
                return Err(CryptoError::InvalidPublicKey);
            },
        }
        i = i + 1;
    }
    proof {
        assert(forall|j: int| 0 <= j < 40 ==> nibble_of_hex_char(#[trigger] body[j]) is Some);
        assert(spec_hex_decode(body) matches Some(d) && d =~= out@);
    }
    Ok(out)
}

pub proof fn lemma_nibble_round_trip(n: u8)
    requires
        n < 16,
    ensures
        nibble_of_hex_char(hex_char_of_nibble(n)) == Some(n),
{
}

/// Formatting an address and parsing the result gives the address back.
pub proof fn lemma_hex_address_round_trip(a: Seq<u8>)
    requires
        a.len() == 20,
    ensures
        spec_parse_address(seq!['0', 'x'] + spec_hex_chars(a)) == Some(a),
{
    let s = seq!['0', 'x'] + spec_hex_chars(a);
    assert(s.len() == 42);
    assert(s[0] == '0');
    assert(s[1] == 'x');
    let body = s.subrange(2, 42);
    assert(body =~= spec_hex_chars(a));
    assert forall|i: int| 0 <= i < 40 implies nibble_of_hex_char(#[trigger] body[i]) is Some by {
        if i % 2 == 0 {
            lemma_nibble_round_trip(a[i / 2] / 16);
        } else {
            lemma_nibble_round_trip(a[i / 2] % 16);
        }
    }
    let d = spec_hex_decode(body).unwrap();
    assert forall|j: int| 0 <= j < 20 implies d[j] == a[j] by {
        lemma_nibble_round_trip(a[j] / 16);
        lemma_nibble_round_trip(a[j] % 16);
        assert(body[2 * j] == hex_char_of_nibble(a[j] / 16));
        assert(body[2 * j + 1] == hex_char_of_nibble(a[j] % 16));
    }
    assert(d =~= a);
}

} // verus!

use orbit_chain::crypto::{
    Keypair, hash_bytes, public_key_to_address, verify_signature, compute_merkle_root,
    address_to_hex, hash_to_hex, hex_to_address, hash_transaction, hash_block_header,
    CryptoError,
};
use orbit_chain::types::{Transaction, BlockHeader, Signature};

#[test]
fn test_keypair_generation() {
    let keypair = Keypair::generate();
    let address = keypair.address();
    assert_eq!(address.len(), 20);
}

#[test]
fn test_sign_and_verify() {
    let keypair = Keypair::generate();
    let message = b"Hello, Orbit Chain!";
    let signature = keypair.sign(message);

    assert!(verify_signature(&keypair.public_key(), message, &signature).is_ok());
}

#[test]
fn test_merkle_root() {
    let hashes = vec![
        hash_bytes(b"tx1"),
        hash_bytes(b"tx2"),
        hash_bytes(b"tx3"),
        hash_bytes(b"tx4"),
    ];
    let root = compute_merkle_root(&hashes);
    assert_ne!(root, vec![0u8; 32]);
}

#[test]
fn sha256_known_answer() {
    // SHA-256("abc"), the FIPS 180 example digest.
    let expected: [u8; 32] = [
        0xba, 0x78, 0x16, 0xbf, 0x8f, 0x01, 0xcf, 0xea, 0x41, 0x41, 0x40, 0xde, 0x5d, 0xae,
        0x22, 0x23, 0xb0, 0x03, 0x61, 0xa3, 0x96, 0x17, 0x7a, 0x9c, 0xb4, 0x10, 0xff, 0x61,
        0xf2, 0x00, 0x15, 0xad,
    ];
    assert_eq!(hash_bytes(b"abc"), expected.to_vec());
}

#[test]
fn address_is_low_twenty_bytes_of_pk_hash() {
    let keypair = Keypair::generate();
    let pk = keypair.public_key();
    let digest = hash_bytes(&pk);
    let address = public_key_to_address(&pk);
    assert_eq!(address, digest[12..32].to_vec());
    assert_eq!(address, keypair.address());
}

#[test]
fn keypair_seed_round_trip() {
    let keypair = Keypair::generate();
    let seed = keypair.to_bytes();
    let restored = Keypair::from_bytes(&seed).unwrap();
    assert_eq!(restored.to_bytes(), seed);
    assert_eq!(restored.public_key(), keypair.public_key());
}

#[test]
fn keypair_from_bad_length_rejected() {
    let short = vec![7u8; 31];
    match Keypair::from_bytes(&short) {
        Err(e) => assert_eq!(e, CryptoError::InvalidPublicKey),
        Ok(_) => panic!("a 31-byte seed must be rejected"),
    }
}

#[test]
fn verify_rejects_tampered_message() {
    let keypair = Keypair::generate();
    let signature = keypair.sign(b"pay alice");
    let result = verify_signature(&keypair.public_key(), b"pay mallory", &signature);
    assert_eq!(result.unwrap_err(), CryptoError::InvalidSignature);
}

#[test]
fn verify_rejects_other_key() {
    let signer = Keypair::generate();
    let other = Keypair::generate();
    let signature = signer.sign(b"hello");
    assert!(verify_signature(&other.public_key(), b"hello", &signature).is_err());
}

fn concat(a: &[u8], b: &[u8]) -> Vec<u8> {
    let mut out = a.to_vec();
    out.extend_from_slice(b);
    out
}

#[test]
fn merkle_root_of_empty_is_zero() {
    let hashes: Vec<Vec<u8>> = Vec::new();
    assert_eq!(compute_merkle_root(&hashes), vec![0u8; 32]);
}

#[test]
fn merkle_root_of_single_is_the_hash() {
    let h = hash_bytes(b"only");
    let hashes = vec![h.clone()];
    assert_eq!(compute_merkle_root(&hashes), h);
}

#[test]
fn merkle_root_of_two_is_pair_hash() {
    let h1 = hash_bytes(b"a");
    let h2 = hash_bytes(b"b");
    let expected = hash_bytes(&concat(&h1, &h2));
    assert_eq!(compute_merkle_root(&vec![h1, h2]), expected);
}

#[test]
fn merkle_root_of_three_duplicates_last() {
    let h1 = hash_bytes(b"a");
    let h2 = hash_bytes(b"b");
    let h3 = hash_bytes(b"c");
    let left = hash_bytes(&concat(&h1, &h2));
    let right = hash_bytes(&concat(&h3, &h3));
    let expected = hash_bytes(&concat(&left, &right));
    assert_eq!(compute_merkle_root(&vec![h1, h2, h3]), expected);
}

#[test]
fn merkle_root_of_four_pairs_in_order() {
    let h1 = hash_bytes(b"a");
    let h2 = hash_bytes(b"b");
    let h3 = hash_bytes(b"c");
    let h4 = hash_bytes(b"d");
    let left = hash_bytes(&concat(&h1, &h2));
    let right = hash_bytes(&concat(&h3, &h4));
    let expected = hash_bytes(&concat(&left, &right));
    assert_eq!(compute_merkle_root(&vec![h1, h2, h3, h4]), expected);
}

#[test]
fn address_hex_round_trip() {
    let address: Vec<u8> = (0..20u8).map(|i| i * 11).collect();
    let text = address_to_hex(&address);
    assert!(text.starts_with("0x"));
    assert_eq!(text.len(), 42);
    assert_eq!(hex_to_address(&text).unwrap(), address);
}

#[test]
fn address_hex_known_form() {
    let address = vec![1u8; 20];
    assert_eq!(address_to_hex(&address), "0x0101010101010101010101010101010101010101");
}

#[test]
fn hash_hex_known_form() {
    let hash = vec![0u8; 32];
    let text = hash_to_hex(&hash);
    assert_eq!(text.len(), 66);
    assert_eq!(
        text,
        "0x0000000000000000000000000000000000000000000000000000000000000000"
    );
}

#[test]
fn parse_address_without_prefix() {
    let address = vec![0xabu8; 20];
    let text = address_to_hex(&address);
    assert_eq!(hex_to_address(&text[2..]).unwrap(), address);
}

#[test]
fn parse_address_accepts_uppercase() {
    let parsed = hex_to_address("0xABCDEF0102030405060708090A0B0C0D0E0F1011").unwrap();
    assert_eq!(parsed[0], 0xab);
    assert_eq!(parsed[19], 0x11);
}

#[test]
fn parse_address_rejects_bad_length() {
    assert!(hex_to_address("0x0102").is_err());
    assert!(hex_to_address("").is_err());
}

#[test]
fn parse_address_rejects_bad_digit() {
    assert!(hex_to_address("0xzz01010101010101010101010101010101010101").is_err());
}

#[test]
fn transaction_hash_covers_payload_fields() {
    let a = vec![1u8; 20];
    let b = vec![2u8; 20];
    let tx1 = Transaction::new(a.clone(), b.clone(), 5, 0, 1, 1, vec![1, 2, 3], 7);
    let tx2 = Transaction::new(a.clone(), b.clone(), 6, 0, 1, 1, vec![1, 2, 3], 7);
    let tx3 = Transaction::new(a, b, 5, 0, 1, 1, vec![1, 2, 3], 99);
    assert_eq!(hash_transaction(&tx1).len(), 32);
    // a changed amount changes the digest
    assert_ne!(hash_transaction(&tx1), hash_transaction(&tx2));
    // the timestamp is not part of the digest preimage
    assert_eq!(hash_transaction(&tx1), hash_transaction(&tx3));
}

#[test]
fn header_digest_ignores_signature() {
    let mut header = BlockHeader {
        version: 1,
        height: 3,
        timestamp: 1000,
        prev_hash: vec![9u8; 32],
        merkle_root: vec![8u8; 32],
        state_root: vec![7u8; 32],
        validator: vec![6u8; 20],
        signature: Signature::default(),
    };
    let before = hash_block_header(&header);
    header.signature = Signature { bytes: vec![5u8; 64] };
    let after = hash_block_header(&header);
    assert_eq!(before, after);
    header.height = 4;
    assert_ne!(hash_block_header(&header), before);
}

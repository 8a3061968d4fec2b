use pos_chain::crypto::{
    build_signing_message, generate_keypair, keypair_to_address, sign_transaction,
    verify_signature_bytes, verify_transaction, verifying_key_to_address, KeyPair,
};

const SECRET: [u8; 32] = [
    0x9d, 0x61, 0xb1, 0x9d, 0xef, 0xfd, 0x5a, 0x60, 0xba, 0x84, 0x4a, 0xf4, 0x92, 0xec, 0x2c, 0xc4,
    0x44, 0x49, 0xc5, 0x69, 0x7b, 0x32, 0x69, 0x19, 0x70, 0x3b, 0xac, 0x03, 0x1c, 0xae, 0x7f, 0x60,
];
const PUBLIC_HEX: &str = "d75a980182b10ab7d54bfed3c964073a0ee172f3daa62325af021a68f707511a";
const SIGNATURE_HEX: &str = "369c5547d6ec728cc5235787ab3ea7de65e7be1c911f8ef1cb7d2effaad1efef3a14c78a2c8d7c77e2958a26fa561577814fda1b853730ca39ae1496e06e0e08";

#[test]
fn public_key_is_derived_from_the_secret() {
    let pair = KeyPair::from_secret(SECRET);
    assert_eq!(pair.secret_bytes(), SECRET);
    assert_eq!(pair.public_hex(), PUBLIC_HEX);
    assert_eq!(pair.public_bytes()[0], 0xd7);
    assert_eq!(pair.public_bytes()[31], 0x1a);
}

#[test]
fn address_is_base58_of_the_public_key() {
    let pair = KeyPair::from_secret(SECRET);
    assert_eq!(keypair_to_address(&pair), "FVen3X669xLzsi6N2V91DoiyzHzg1uAgqiT8jZ9nS96Z");
    assert_eq!(verifying_key_to_address(&pair.public_bytes()), "FVen3X669xLzsi6N2V91DoiyzHzg1uAgqiT8jZ9nS96Z");
    assert_eq!(keypair_to_address(&KeyPair::from_secret([1u8; 32])), "AKnL4NNf3DGWZJS6cPknBuEGnVsV4A4m5tgebLHaRSZ9");
}

#[test]
fn signing_message_is_colon_joined() {
    assert_eq!(build_signing_message("alice", "bob", 100, 0, 10), b"alice:bob:100:0:10".to_vec());
    assert_eq!(
        build_signing_message("a", "", u64::MAX, 10, 909),
        b"a::18446744073709551615:10:909".to_vec()
    );
}

#[test]
fn signature_is_the_ed25519_signature_in_hex() {
    let pair = KeyPair::from_secret(SECRET);
    assert_eq!(sign_transaction(&pair, "alice", "bob", 100, 0, 10), SIGNATURE_HEX);
}

#[test]
fn signing_then_verifying_succeeds() {
    let pair = KeyPair::from_secret([7u8; 32]);
    let from = keypair_to_address(&pair);
    let signature = sign_transaction(&pair, &from, "bob", 250, 4, 3);
    assert_eq!(signature.len(), 128);
    assert!(verify_transaction(&pair.public_hex(), &from, "bob", 250, 4, 3, &signature));
    assert!(verify_transaction(&pair.public_hex().to_uppercase(), &from, "bob", 250, 4, 3, &signature.to_uppercase()));
}

#[test]
fn changing_any_signed_field_fails_verification() {
    let pair = KeyPair::from_secret([7u8; 32]);
    let key = pair.public_hex();
    let signature = sign_transaction(&pair, "alice", "bob", 250, 4, 3);
    assert!(verify_transaction(&key, "alice", "bob", 250, 4, 3, &signature));
    assert!(!verify_transaction(&key, "alicf", "bob", 250, 4, 3, &signature));
    assert!(!verify_transaction(&key, "alice", "bop", 250, 4, 3, &signature));
    assert!(!verify_transaction(&key, "alice", "bob", 251, 4, 3, &signature));
    assert!(!verify_transaction(&key, "alice", "bob", 250, 5, 3, &signature));
    assert!(!verify_transaction(&key, "alice", "bob", 250, 4, 2, &signature));
    let other = KeyPair::from_secret([8u8; 32]);
    assert!(!verify_transaction(&other.public_hex(), "alice", "bob", 250, 4, 3, &signature));
}

#[test]
fn malformed_keys_and_signatures_are_false() {
    let pair = KeyPair::from_secret(SECRET);
    let key = pair.public_hex();
    assert!(verify_transaction(&key, "alice", "bob", 100, 0, 10, SIGNATURE_HEX));
    assert!(!verify_transaction("", "alice", "bob", 100, 0, 10, SIGNATURE_HEX));
    assert!(!verify_transaction("zz", "alice", "bob", 100, 0, 10, SIGNATURE_HEX));
    assert!(!verify_transaction("test_pubkey", "alice", "bob", 100, 0, 10, SIGNATURE_HEX));
    assert!(!verify_transaction(&key[..62], "alice", "bob", 100, 0, 10, SIGNATURE_HEX));
    assert!(!verify_transaction(&key[..63], "alice", "bob", 100, 0, 10, SIGNATURE_HEX));
    assert!(!verify_transaction(&key, "alice", "bob", 100, 0, 10, ""));
    assert!(!verify_transaction(&key, "alice", "bob", 100, 0, 10, "sig1"));
    assert!(!verify_transaction(&key, "alice", "bob", 100, 0, 10, &SIGNATURE_HEX[..126]));
    assert!(!verify_transaction(&key, "alice", "bob", 100, 0, 10, &format!("{}00", SIGNATURE_HEX)));
    let not_a_point = "02".to_string() + &"00".repeat(31);
    assert!(!verify_transaction(&not_a_point, "alice", "bob", 100, 0, 10, SIGNATURE_HEX));
}

#[test]
fn raw_verification_checks_lengths() {
    let pair = KeyPair::from_secret([3u8; 32]);
    let message = build_signing_message("a", "b", 1, 2, 3);
    let signature = sign_transaction(&pair, "a", "b", 1, 2, 3);
    let raw: Vec<u8> = (0..64)
        .map(|i| u8::from_str_radix(&signature[2 * i..2 * i + 2], 16).unwrap())
        .collect();
    assert!(verify_signature_bytes(&pair.public_bytes(), &message, &raw));
    assert!(!verify_signature_bytes(&pair.public_bytes()[..31], &message, &raw));
    assert!(!verify_signature_bytes(&pair.public_bytes(), &message, &raw[..63]));
    assert!(!verify_signature_bytes(&pair.public_bytes(), b"other", &raw));
}

#[test]
fn generated_keypairs_differ_and_sign() {
    let a = generate_keypair();
    let b = generate_keypair();
    assert_ne!(a.secret_bytes(), b.secret_bytes());
    assert_ne!(keypair_to_address(&a), keypair_to_address(&b));
    let signature = sign_transaction(&a, "x", "y", 1, 0, 0);
    assert!(verify_transaction(&a.public_hex(), "x", "y", 1, 0, 0, &signature));
    assert!(!verify_transaction(&b.public_hex(), "x", "y", 1, 0, 0, &signature));
}

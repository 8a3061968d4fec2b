//! Ed25519 keys, transaction signatures and address derivation.
//!
//! The curve arithmetic is done by `ed25519-dalek`, hexadecimal text by
//! `hex` and address encoding by `bs58`. What this module proves is the
//! framing around them: which bytes are signed, when a textual key or
//! signature is rejected before any curve operation, and that a signature
//! made here is accepted here.

use crate::encoding::{append_decimal, append_text, decimal, utf8};
use ed25519_dalek::{Signer, Verifier};
use rand::RngCore;
use vstd::prelude::*;

verus! {

pub const SECRET_KEY_LEN: usize = 32;

pub const PUBLIC_KEY_LEN: usize = 32;

pub const SIGNATURE_LEN: usize = 64;

/// The public key that belongs to a 32-byte Ed25519 secret key.
pub uninterp spec fn ed25519_public_key(secret: Seq<u8>) -> Seq<u8>;

/// The Ed25519 signature of `message` under a 32-byte secret key.
pub uninterp spec fn ed25519_signature(secret: Seq<u8>, message: Seq<u8>) -> Seq<u8>;

/// Whether `public_key` is a valid Ed25519 key under which `signature`
/// verifies for `message`.
pub uninterp spec fn ed25519_accepts(public_key: Seq<u8>, message: Seq<u8>, signature: Seq<u8>) -> bool;

/// The base58 text (Bitcoin alphabet) of a byte string.
pub uninterp spec fn base58_text(data: Seq<u8>) -> Seq<char>;

/// Value of one hexadecimal digit, either case.
pub open spec fn hex_digit_value(c: u8) -> Option<u8> {
    if 48 <= c <= 57 {
        Some((c - 48) as u8)
    } else if 97 <= c <= 102 {
        Some((c - 87) as u8)
    } else if 65 <= c <= 70 {
        Some((c - 55) as u8)
    } else {
        None
    }
}

/// The lower-case hexadecimal digit for a value below 16.
pub open spec fn hex_digit(v: u8) -> u8 {
    if v < 10 {
        (48 + v) as u8
    } else {
        (87 + v) as u8
    }
}

/// Whether a byte string is an even number of hexadecimal digits.
pub open spec fn is_hex(text: Seq<u8>) -> bool {
    &&& text.len() % 2 == 0
    &&& forall|i: int| 0 <= i < text.len() ==> hex_digit_value(#[trigger] text[i]) is Some
}

/// The bytes that a hexadecimal text stands for: two digits per byte, high
/// digit first; `None` unless the text is an even number of digits.
pub open spec fn hex_decoded(text: Seq<u8>) -> Option<Seq<u8>> {
    if is_hex(text) {
        Some(
            Seq::new(
                text.len() / 2,
                |i: int|
                    (hex_digit_value(text[2 * i])->0 * 16 + hex_digit_value(text[2 * i + 1])->0) as u8,
            ),
        )
    } else {
        None
    }
}

/// The lower-case hexadecimal digits of a byte string, two per byte.
pub open spec fn hex_encoded(data: Seq<u8>) -> Seq<u8> {
    Seq::new(
        2 * data.len(),
        |i: int|
            if i % 2 == 0 {
                hex_digit(data[i / 2] / 16)
            } else {
                hex_digit(data[i / 2] % 16)
            },
    )
}

/// Decoding what was encoded gives the bytes back.
pub proof fn lemma_hex_roundtrip(data: Seq<u8>)
    ensures
        hex_decoded(hex_encoded(data)) == Some(data),
{
    let text = hex_encoded(data);
    assert(is_hex(text));
    assert(hex_decoded(text)->0 =~= data);
}

/// Hexadecimal digits are ASCII, so a text made of them has one byte per
/// character.
pub proof fn lemma_hex_text_bytes(data: Seq<u8>)
    ensures
        utf8(crate::encoding::ascii_text(hex_encoded(data))) == hex_encoded(data),
{
    let digits = hex_encoded(data);
    let text = crate::encoding::ascii_text(digits);
    assert forall|i: int| 0 <= i < text.len() implies 0 <= (#[trigger] text[i]) as nat <= 0x7f by {
        assert(text[i] == digits[i] as char);
    }
    vstd::utf8::is_ascii_chars_encode_utf8(text);
    assert(utf8(text) =~= digits);
}

/// Calls `hex::decode` on the text. Trusted: it succeeds exactly on an even
/// number of hexadecimal digits of either case, and then returns the bytes
/// they stand for, high digit first.
#[verifier::external_body]
pub(crate) fn hex_decode(text: &str) -> (r: Option<Vec<u8>>)
    ensures
        match r {
            Some(bytes) => hex_decoded(utf8(text@)) == Some(bytes@),
            None => hex_decoded(utf8(text@)) is None,
        },
{
    hex::decode(text).ok()
}

/// Calls `hex::encode` on the bytes. Trusted: the result is two lower-case
/// hexadecimal digits per byte, high digit first.
#[verifier::external_body]
pub(crate) fn hex_encode(data: &[u8]) -> (r: String)
    ensures
        r@ == crate::encoding::ascii_text(hex_encoded(data@)),
{
    hex::encode(data)
}

/// Calls `bs58::encode(..).into_string()`. Trusted: the result depends on the
/// bytes alone.
#[verifier::external_body]
pub(crate) fn base58_encode(data: &[u8]) -> (r: String)
    ensures
        r@ == base58_text(data@),
{
    bs58::encode(data).into_string()
}

/// Fills 32 bytes from the operating system's generator with
/// `rand::rngs::OsRng`. Nothing is claimed of the bytes; the call fails only
/// if the operating system's generator does.
#[verifier::external_body]
pub(crate) fn random_secret() -> (r: [u8; 32]) {
    let mut bytes = [0u8; 32];
    rand::rngs::OsRng.fill_bytes(&mut bytes);
    bytes
}

/// Calls `ed25519_dalek::SigningKey::from_bytes` and `verifying_key`.
/// Trusted: the public key depends on the secret bytes alone.
#[verifier::external_body]
pub(crate) fn derive_public_key(secret: &[u8; 32]) -> (r: [u8; 32])
    ensures
        r@ == ed25519_public_key(secret@),
{
    ed25519_dalek::SigningKey::from_bytes(secret).verifying_key().to_bytes()
}

/// Calls `ed25519_dalek::SigningKey::sign`. Trusted: signing is
/// deterministic, the signature is 64 bytes, and it verifies for the same
/// message under the public key of the same secret.
#[verifier::external_body]
pub(crate) fn ed25519_sign(secret: &[u8; 32], message: &[u8]) -> (r: Vec<u8>)
    ensures
        r@ == ed25519_signature(secret@, message@),
        r@.len() == 64,
        ed25519_accepts(ed25519_public_key(secret@), message@, r@),
{
    ed25519_dalek::SigningKey::from_bytes(secret).sign(message).to_bytes().to_vec()
}

/// Calls `ed25519_dalek::VerifyingKey::from_bytes` and `verify`. Trusted:
/// the answer depends on the three byte strings alone. A key that is no
/// point of the curve is answered with `false`.
#[verifier::external_body]
pub(crate) fn ed25519_verify(public_key: &[u8], message: &[u8], signature: &[u8]) -> (r: bool)
    requires
        public_key@.len() == 32,
        signature@.len() == 64,
    ensures
        r == ed25519_accepts(public_key@, message@, signature@),
{
    let key: [u8; 32] = public_key.try_into().unwrap();
    let sig: [u8; 64] = signature.try_into().unwrap();
    match ed25519_dalek::VerifyingKey::from_bytes(&key) {
        Ok(vk) => vk.verify(message, &ed25519_dalek::Signature::from_bytes(&sig)).is_ok(),
        Err(_) => false,
    }
}

/// An Ed25519 key pair, held as raw bytes.
pub struct KeyPair {
    secret: [u8; 32],
    public: [u8; 32],
}

impl KeyPair {
    #[verifier::type_invariant]
    spec fn well_formed(self) -> bool {
        self.public@ == ed25519_public_key(self.secret@)
    }

    pub closed spec fn secret_key(self) -> Seq<u8> {
        self.secret@
    }

    /// The public half, which is always the one derived from the secret.
    pub closed spec fn public_key(self) -> Seq<u8> {
        ed25519_public_key(self.secret@)
    }

    /// The key pair of a given secret.
    pub fn from_secret(secret: [u8; 32]) -> (r: KeyPair)
        ensures
            r.secret_key() == secret@,
    {
        let public = derive_public_key(&secret);
        KeyPair { secret, public }
    }

    pub fn secret_bytes(&self) -> (r: [u8; 32])
        ensures
            r@ == self.secret_key(),
    {
        self.secret
    }

    pub fn public_bytes(&self) -> (r: [u8; 32])
        ensures
            r@ == self.public_key(),
            r@ == ed25519_public_key(self.secret_key()),
    {
        proof {
            use_type_invariant(self);
        }
        self.public
    }

    /// The public key as lower-case hexadecimal text, the form in which a
    /// transaction carries it.
    pub fn public_hex(&self) -> (r: String)
        ensures
            r@ == crate::encoding::ascii_text(hex_encoded(self.public_key())),
    {
        let public = self.public_bytes();
        hex_encode(public.as_slice())
    }
}

/// A fresh key pair from the operating system's random generator.
pub fn generate_keypair() -> KeyPair {
    KeyPair::from_secret(random_secret())
}

/// The bytes that a transaction's signature covers: the colon-joined text
/// `from:to:amount:nonce:fee`, numbers in decimal.
pub open spec fn signing_message(
    from: Seq<char>,
    to: Seq<char>,
    amount: u64,
    nonce: u64,
    fee: u64,
) -> Seq<u8> {
    utf8(from) + seq![58u8] + utf8(to) + seq![58u8] + decimal(amount as nat) + seq![58u8] + decimal(
        nonce as nat,
    ) + seq![58u8] + decimal(fee as nat)
}

/// Builds the bytes that a transaction's signature covers.
pub fn build_signing_message(from: &str, to: &str, amount: u64, nonce: u64, fee: u64) -> (r: Vec<u8>)
    ensures
        r@ == signing_message(from@, to@, amount, nonce, fee),
{
    let mut out: Vec<u8> = Vec::new();
    append_text(&mut out, from);
    out.push(58u8);
    append_text(&mut out, to);
    out.push(58u8);
    append_decimal(&mut out, amount);
    out.push(58u8);
    append_decimal(&mut out, nonce);
    out.push(58u8);
    append_decimal(&mut out, fee);
    assert(out@ =~= signing_message(from@, to@, amount, nonce, fee));
    out
}

/// What `verify_transaction` answers, given the key and signature as text.
///
/// Both must be hexadecimal, of 32 and 64 bytes; anything else is `false`.
pub open spec fn transaction_verifies(
    public_key_hex: Seq<char>,
    from: Seq<char>,
    to: Seq<char>,
    amount: u64,
    nonce: u64,
    fee: u64,
    signature_hex: Seq<char>,
) -> bool {
    match (hex_decoded(utf8(public_key_hex)), hex_decoded(utf8(signature_hex))) {
        (Some(key), Some(sig)) => key.len() == 32 && sig.len() == 64 && ed25519_accepts(
            key,
            signing_message(from, to, amount, nonce, fee),
            sig,
        ),
        _ => false,
    }
}

/// The hexadecimal signature that `sign_transaction` produces.
pub open spec fn transaction_signature(
    secret: Seq<u8>,
    from: Seq<char>,
    to: Seq<char>,
    amount: u64,
    nonce: u64,
    fee: u64,
) -> Seq<char> {
    crate::encoding::ascii_text(
        hex_encoded(ed25519_signature(secret, signing_message(from, to, amount, nonce, fee))),
    )
}

/// Signs `from:to:amount:nonce:fee` and returns the signature as 128
/// hexadecimal digits. The signature verifies under the pair's own public
/// key for the same five fields.
pub fn sign_transaction(keypair: &KeyPair, from: &str, to: &str, amount: u64, nonce: u64, fee: u64) -> (r:
    String)
    ensures
        r@ == transaction_signature(keypair.secret_key(), from@, to@, amount, nonce, fee),
        transaction_verifies(
            crate::encoding::ascii_text(hex_encoded(keypair.public_key())),
            from@,
            to@,
            amount,
            nonce,
            fee,
            r@,
        ),
{
    let message = build_signing_message(from, to, amount, nonce, fee);
    let secret = keypair.secret_bytes();
    let signature = ed25519_sign(&secret, message.as_slice());
    let text = hex_encode(signature.as_slice());
    proof {
        lemma_hex_text_bytes(signature@);
        lemma_hex_roundtrip(signature@);
        lemma_hex_text_bytes(keypair.public_key());
        lemma_hex_roundtrip(keypair.public_key());
        use_type_invariant(keypair);
        assert(keypair.public@.len() == 32);
    }
    text
}

/// Checks a transaction's signature. Never fails: a key or signature that
/// is not hexadecimal, or of the wrong length, is answered with `false`.
pub fn verify_transaction(
    public_key_hex: &str,
    from: &str,
    to: &str,
    amount: u64,
    nonce: u64,
    fee: u64,
    signature_hex: &str,
) -> (r: bool)
    ensures
        r == transaction_verifies(public_key_hex@, from@, to@, amount, nonce, fee, signature_hex@),
{
    let key = match hex_decode(public_key_hex) {
        Some(bytes) => bytes,
        None => {
            return false;
        },
    };
    if key.len() != PUBLIC_KEY_LEN {
        return false;
    }
    let signature = match hex_decode(signature_hex) {
        Some(bytes) => bytes,
        None => {
            return false;
        },
    };
    if signature.len() != SIGNATURE_LEN {
        return false;
    }
    let message = build_signing_message(from, to, amount, nonce, fee);
    verify_signature_bytes(key.as_slice(), message.as_slice(), signature.as_slice())
}

/// Checks a raw signature over raw bytes.
pub fn verify_signature_bytes(public_key: &[u8], message: &[u8], signature: &[u8]) -> (r: bool)
    ensures
        r == (public_key@.len() == 32 && signature@.len() == 64 && ed25519_accepts(
            public_key@,
            message@,
            signature@,
        )),
{
    if public_key.len() != PUBLIC_KEY_LEN || signature.len() != SIGNATURE_LEN {
        return false;
    }
    ed25519_verify(public_key, message, signature)
}

/// The address of a key pair: the base58 text of its public key.
pub fn keypair_to_address(keypair: &KeyPair) -> (r: String)
    ensures
        r@ == base58_text(keypair.public_key()),
{
    let public = keypair.public_bytes();
    base58_encode(public.as_slice())
}

/// The address of a public key: the base58 text of its 32 bytes.
pub fn verifying_key_to_address(verifying_key: &[u8; 32]) -> (r: String)
    ensures
        r@ == base58_text(verifying_key@),
{
    base58_encode(verifying_key.as_slice())
}

} // verus!

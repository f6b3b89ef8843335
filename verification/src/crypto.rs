//! Hashes, hex text and signatures, from the crates that compute them.
use vstd::prelude::*;

verus! {

// ----- hex -----

/// The lower-case hex digit of a number below sixteen.
pub open spec fn hex_digit(n: int) -> char {
    if n < 10 {
        (48 + n) as char
    } else {
        (87 + n) as char
    }
}

/// Two lower-case hex digits for each byte, the high half first.
pub open spec fn hex_text(bytes: Seq<u8>) -> Seq<char> {
    Seq::new(
        2 * bytes.len(),
        |i: int|
            if i % 2 == 0 {
                hex_digit(bytes[i / 2] as int / 16)
            } else {
                hex_digit(bytes[i / 2] as int % 16)
            },
    )
}

/// The character is a hex digit, in either case.
pub open spec fn is_hex_digit(c: char) -> bool {
    ('0' <= c && c <= '9') || ('a' <= c && c <= 'f') || ('A' <= c && c <= 'F')
}

/// The value of a hex digit.
pub open spec fn hex_value(c: char) -> int {
    if '0' <= c && c <= '9' {
        c as int - 48
    } else if 'a' <= c && c <= 'f' {
        c as int - 87
    } else {
        c as int - 55
    }
}

/// An even number of hex digits.
pub open spec fn is_hex(s: Seq<char>) -> bool {
    s.len() % 2 == 0 && forall|i: int| 0 <= i < s.len() ==> is_hex_digit(#[trigger] s[i])
}

/// The bytes that pairs of hex digits spell.
pub open spec fn unhex(s: Seq<char>) -> Seq<u8> {
    Seq::new(s.len() / 2, |i: int| (16 * hex_value(s[2 * i]) + hex_value(s[2 * i + 1])) as u8)
}

/// `hex::encode`: two lower-case hex digits for each byte.
#[verifier::external_body]
pub(crate) fn hex_encode(bytes: &[u8]) -> (digits: String)
    ensures
        digits@ == hex_text(bytes@),
{
    hex::encode(bytes)
}

/// `hex::decode`: the bytes that the digits spell; fails unless the text is an even number of hex
/// digits, of either case.
#[verifier::external_body]
pub(crate) fn hex_decode(digits: &str) -> (bytes: Option<Vec<u8>>)
    ensures
        match bytes {
            Some(b) => is_hex(digits@) && b@ == unhex(digits@),
            None => !is_hex(digits@),
        },
{
    hex::decode(digits).ok()
}

/// Reading hex text gives back the bytes that were written.
pub proof fn law_hex_roundtrip(bytes: Seq<u8>)
    ensures
        is_hex(hex_text(bytes)),
        unhex(hex_text(bytes)) == bytes,
{
    let s = hex_text(bytes);
    assert forall|i: int| 0 <= i < s.len() implies is_hex_digit(#[trigger] s[i]) by {
        let b = bytes[i / 2];
        assert(0 <= b as int / 16 < 16);
        assert(0 <= b as int % 16 < 16);
    }
    assert forall|i: int| 0 <= i < bytes.len() implies unhex(s)[i] == bytes[i] by {
        let b = bytes[i] as int;
        assert((2 * i) / 2 == i && (2 * i) % 2 == 0);
        assert((2 * i + 1) / 2 == i && (2 * i + 1) % 2 == 1);
        assert(s[2 * i] == hex_digit(b / 16));
        assert(s[2 * i + 1] == hex_digit(b % 16));
        assert(hex_value(hex_digit(b / 16)) == b / 16);
        assert(hex_value(hex_digit(b % 16)) == b % 16);
    }
    assert(unhex(s) =~= bytes);
}

/// Different bytes have different hex text.
pub proof fn lemma_hex_injective(a: Seq<u8>, b: Seq<u8>)
    requires
        hex_text(a) == hex_text(b),
    ensures
        a == b,
{
    law_hex_roundtrip(a);
    law_hex_roundtrip(b);
}

// ----- sha256 -----

/// The SHA-256 digest of a byte string.
pub uninterp spec fn sha256(bytes: Seq<u8>) -> Seq<u8>;

/// `sha2::Sha256::digest`: the digest of the bytes, 32 bytes long.
#[verifier::external_body]
pub(crate) fn sha256_digest(bytes: &[u8]) -> (digest: Vec<u8>)
    ensures
        digest@ == sha256(bytes@),
        digest@.len() == 32,
{
    <sha2::Sha256 as sha2::Digest>::digest(bytes).to_vec()
}

/// Two different byte strings with one digest.
pub open spec fn collide(a: Seq<u8>, b: Seq<u8>) -> bool {
    a != b && sha256(a) == sha256(b)
}

// ----- ed25519 -----

/// The 32 bytes are the encoding of an ed25519 public key.
pub uninterp spec fn ed25519_key_valid(key: Seq<u8>) -> bool;

/// The signature of the message is good under the public key, malleable and weak ones refused.
pub uninterp spec fn ed25519_accepts(key: Seq<u8>, message: Seq<u8>, signature: Seq<u8>) -> bool;

/// The public half of a secret key.
pub uninterp spec fn ed25519_public(secret: Seq<u8>) -> Seq<u8>;

/// The signature of a message with a secret key.
pub uninterp spec fn ed25519_signature(secret: Seq<u8>, message: Seq<u8>) -> Seq<u8>;

/// The signature's nonce point is not the neutral element. A signer meets the neutral element with a
/// chance of one in about `2^252`, and strict verification then refuses the signature.
pub open spec fn ordinary(signature: Seq<u8>) -> bool {
    signature.take(32) != seq![1u8] + Seq::new(31, |i: int| 0u8)
}

/// `ed25519_dalek::VerifyingKey::from_bytes`: do the bytes encode a public key?
#[verifier::external_body]
pub(crate) fn key_is_valid(key: &[u8]) -> (valid: bool)
    requires
        key@.len() == 32,
    ensures
        valid == ed25519_key_valid(key@),
{
    let bytes: [u8; 32] = key.try_into().expect("32 bytes");
    ed25519_dalek::VerifyingKey::from_bytes(&bytes).is_ok()
}

/// `ed25519_dalek::VerifyingKey::verify_strict`: is the signature of the message good under the key?
#[verifier::external_body]
pub(crate) fn signature_is_good(key: &[u8], message: &[u8], signature: &[u8]) -> (good: bool)
    requires
        key@.len() == 32,
        ed25519_key_valid(key@),
        signature@.len() == 64,
    ensures
        good == ed25519_accepts(key@, message@, signature@),
{
    let key_bytes: [u8; 32] = key.try_into().expect("32 bytes");
    let sig_bytes: [u8; 64] = signature.try_into().expect("64 bytes");
    let vk = ed25519_dalek::VerifyingKey::from_bytes(&key_bytes).expect("a valid key");
    vk.verify_strict(message, &ed25519_dalek::Signature::from_bytes(&sig_bytes)).is_ok()
}

/// `ed25519_dalek::SigningKey::verifying_key`: the public half of the secret key, 32 bytes that are
/// themselves a valid public key.
#[verifier::external_body]
pub(crate) fn public_key(secret: &[u8; 32]) -> (key: Vec<u8>)
    ensures
        key@ == ed25519_public(secret@),
        key@.len() == 32,
        ed25519_key_valid(key@),
{
    ed25519_dalek::SigningKey::from_bytes(secret).verifying_key().to_bytes().to_vec()
}

/// `ed25519_dalek::Signer::sign` of a `SigningKey`: the deterministic signature of the message, 64
/// bytes, good under the public half of the key whenever it is ordinary.
#[verifier::external_body]
pub(crate) fn sign_message(secret: &[u8; 32], message: &[u8]) -> (signature: Vec<u8>)
    ensures
        signature@ == ed25519_signature(secret@, message@),
        signature@.len() == 64,
        ordinary(signature@) ==> ed25519_accepts(ed25519_public(secret@), message@, signature@),
{
    let key = ed25519_dalek::SigningKey::from_bytes(secret);
    ed25519_dalek::Signer::sign(&key, message).to_bytes().to_vec()
}

} // verus!

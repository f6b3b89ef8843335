use ed25519_dalek::Signer;
use trana::model::{Body, Post, Vote};
use trana::record::{canonical_bytes, cid, Record, RecordError};

fn post_body() -> Body {
    Body::Post(Post {
        board: "ce-dev".to_string(),
        parent: None,
        title: Some("hello".to_string()),
        body: "first post".to_string(),
        media: vec![],
    })
}

#[test]
fn id_is_content_addressed_and_stable() {
    let a = Record::new(&"ab".repeat(32), 1000, post_body()).unwrap();
    let b = Record::new(&"ab".repeat(32), 1000, post_body()).unwrap();
    assert_eq!(a.id, b.id, "same author+time+body => same id");
    let c = Record::new(&"ab".repeat(32), 1001, post_body()).unwrap();
    assert_ne!(a.id, c.id, "different time => different id");
}

#[test]
fn verify_id_catches_tampering() {
    let mut r = Record::new(&"cd".repeat(32), 5, post_body()).unwrap();
    r.verify().unwrap();
    // Tamper with the body but keep the old id.
    if let Body::Post(p) = &mut r.body {
        p.body = "tampered".to_string();
    }
    assert!(matches!(r.verify_id(), Err(RecordError::IdMismatch { .. })));
}

#[test]
fn empty_sig_is_accepted() {
    let r = Record::new(&"ef".repeat(32), 9, Body::Vote(Vote { target: "x".to_string(), value: 1 })).unwrap();
    assert!(r.sig.is_empty());
    r.verify().unwrap();
}

#[test]
fn sign_and_verify_roundtrip() {
    // Deterministic key from fixed bytes (no rng needed in the test).
    let secret = [7u8; 32];
    let sk = ed25519_dalek::SigningKey::from_bytes(&secret);
    let author = hex::encode(sk.verifying_key().to_bytes());

    let mut r = Record::new(&author, 42, post_body()).unwrap();
    r.sign_with(&secret).unwrap();
    assert_eq!(r.sig.len(), 128);
    r.verify().unwrap();

    // A wrong-author signature is refused at signing time.
    let mut bad = Record::new(&"aa".repeat(32), 42, post_body()).unwrap();
    assert!(matches!(bad.sign_with(&secret), Err(RecordError::BadAuthor)));
}

#[test]
fn corrupt_signature_is_rejected() {
    let secret = [9u8; 32];
    let sk = ed25519_dalek::SigningKey::from_bytes(&secret);
    let author = hex::encode(sk.verifying_key().to_bytes());
    let mut r = Record::new(&author, 1, post_body()).unwrap();
    r.sign_with(&secret).unwrap();
    // Flip a byte in the signature.
    let mut bytes = hex::decode(&r.sig).unwrap();
    bytes[0] ^= 0xff;
    r.sig = hex::encode(bytes);
    assert!(matches!(r.verify(), Err(RecordError::BadSignature)));
}

#[test]
fn cid_is_the_hex_of_sha256() {
    assert_eq!(cid(b"abc"), "ba7816bf8f01cfea414140de5dae2223b00361a396177a9cb410ff61f20015ad");
    assert_eq!(cid(b""), "e3b0c44298fc1c149afbf4c8996fb92427ae41e4649b934ca495991b7852b855");
}

#[test]
fn the_id_is_the_cid_of_the_canonical_bytes() {
    let r = Record::new(&"ab".repeat(32), 7, post_body()).unwrap();
    let bytes = canonical_bytes(&r.author, 7, &r.body).unwrap();
    assert_eq!(r.id, cid(&bytes));
    assert_eq!(r.canonical().unwrap(), bytes);
}

#[test]
fn mismatch_names_both_ids() {
    let mut r = Record::new(&"ab".repeat(32), 7, post_body()).unwrap();
    let good = r.id.clone();
    r.id = "deadbeef".to_string();
    match r.verify() {
        Err(RecordError::IdMismatch { expected, got }) => {
            assert_eq!(expected, "deadbeef");
            assert_eq!(got, good);
        }
        _ => panic!("expected a mismatch"),
    }
}

#[test]
fn signed_keeps_the_rest_of_the_record() {
    let r = Record::new(&"ab".repeat(32), 7, post_body()).unwrap();
    let id = r.id.clone();
    let s = r.signed("00ff");
    assert_eq!(s.sig, "00ff");
    assert_eq!(s.id, id);
}

fn message_of(outcome: Result<(), RecordError>) -> String {
    match outcome {
        Ok(()) => String::new(),
        Err(e) => e.message(),
    }
}

#[test]
fn each_flaw_has_its_own_error() {
    // An author that is no node id.
    let r = Record::new("alice", 1, post_body()).unwrap();
    assert!(matches!(r.verify(), Err(RecordError::BadAuthor)));
    assert_eq!(message_of(r.verify()), "author is not a 64-hex NodeId");
    // The right length, but not hex.
    let r = Record::new(&"zz".repeat(32), 1, post_body()).unwrap();
    assert!(matches!(r.verify(), Err(RecordError::BadAuthor)));
    // A signature that is not 128 hex digits.
    let secret = [3u8; 32];
    let author = hex::encode(ed25519_dalek::SigningKey::from_bytes(&secret).verifying_key().to_bytes());
    let r = Record::new(&author, 1, post_body()).unwrap().signed("abcd");
    assert!(matches!(r.verify(), Err(RecordError::BadSignatureFormat)));
    assert_eq!(message_of(r.verify()), "signature is not 128 hex chars");
    // A well-formed signature of something else.
    let r = r.signed(&"00".repeat(64));
    assert!(matches!(r.verify_sig(), Err(RecordError::BadSignature)));
    assert_eq!(message_of(r.verify_sig()), "signature did not verify against author key");
    // An author of the right form that is no point on the curve.
    let mut bytes = [0u8; 32];
    bytes[0] = 2;
    let r = Record::new(&hex::encode(bytes), 1, post_body()).unwrap().signed(&"00".repeat(64));
    assert!(matches!(r.verify(), Err(RecordError::BadAuthor)));
    // An id of other content.
    let mut r = Record::new(&author, 1, post_body()).unwrap();
    let good = r.id.clone();
    r.id = "ab".to_string();
    assert_eq!(message_of(r.verify_id()), format!("record id mismatch: claims ab, hashes to {good}"));
}

#[test]
fn the_signature_is_that_of_the_canonical_bytes() {
    let secret = [21u8; 32];
    let sk = ed25519_dalek::SigningKey::from_bytes(&secret);
    let author = hex::encode(sk.verifying_key().to_bytes());
    let mut r = Record::new(&author, 5, post_body()).unwrap();
    r.sign_with(&secret).unwrap();
    assert_eq!(r.sig, hex::encode(sk.sign(&r.canonical().unwrap()).to_bytes()));
    // Signing changes neither the id nor the content.
    assert_eq!(r.id, Record::new(&author, 5, post_body()).unwrap().id);
}

#[test]
fn upper_case_authors_are_node_ids_too() {
    let r = Record::new(&"AB".repeat(32), 1, post_body()).unwrap();
    r.verify().unwrap();
}

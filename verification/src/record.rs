//! [`Record`]: the authored, content-addressed envelope every write becomes.
//!
//! A record's identity is derived, not assigned: its id is the hash of its canonical bytes. Anyone can
//! recompute it to check that the record was not tampered with. A record may also carry a detached
//! ed25519 signature over the same bytes by its author's key.
use crate::canonical;
use crate::codec;
use crate::crypto;
use crate::model::{Body, BodyModel};
use crate::text;
use vstd::prelude::*;

verus! {

/// An authored, content-addressed record: the unit of everything written.
pub struct Record {
    /// Content hash of the canonical bytes.
    pub id: String,
    /// Author NodeId (ed25519 public key, 64 hex).
    pub author: String,
    /// Author-asserted creation time, unix milliseconds.
    pub created_ms: u64,
    /// The payload.
    pub body: Body,
    /// Detached ed25519 signature over the canonical bytes (128 hex), or empty.
    pub sig: String,
}

/// What a [`Record`] says.
#[verifier::ext_equal]
pub struct RecordModel {
    pub id: Seq<char>,
    pub author: Seq<char>,
    pub created_ms: u64,
    pub body: BodyModel,
    pub sig: Seq<char>,
}

impl View for Record {
    type V = RecordModel;

    open spec fn view(&self) -> RecordModel {
        RecordModel {
            id: self.id@,
            author: self.author@,
            created_ms: self.created_ms,
            body: self.body@,
            sig: self.sig@,
        }
    }
}

impl Clone for Record {
    fn clone(&self) -> (copy: Self)
        ensures
            copy@ == self@,
    {
        Record {
            id: self.id.clone(),
            author: self.author.clone(),
            created_ms: self.created_ms,
            body: self.body.clone(),
            sig: self.sig.clone(),
        }
    }
}

/// Errors that can arise validating a record.
#[derive(Debug)]
pub enum RecordError {
    /// The stored id does not equal the recomputed content hash.
    IdMismatch { expected: String, got: String },
    /// `author` is not 64 hex chars (a NodeId / ed25519 public key).
    BadAuthor,
    /// `sig` is present but not 128 hex chars (64-byte ed25519 signature).
    BadSignatureFormat,
    /// `sig` did not verify against the author key.
    BadSignature,
    /// Canonical encoding failed.
    Encoding,
}

impl RecordError {
    /// The error in words.
    pub fn message(&self) -> (words: String)
        ensures
            words@ == (match self {
                RecordError::IdMismatch { expected, got } => "record id mismatch: claims "@ + expected@
                    + ", hashes to "@ + got@,
                RecordError::BadAuthor => "author is not a 64-hex NodeId"@,
                RecordError::BadSignatureFormat => "signature is not 128 hex chars"@,
                RecordError::BadSignature => "signature did not verify against author key"@,
                RecordError::Encoding => "canonical encoding failed"@,
            }),
    {
        match self {
            RecordError::IdMismatch { expected, got } => {
                let mut words = "record id mismatch: claims ".to_owned();
                words.append(expected);
                words.append(", hashes to ");
                words.append(got);
                words
            },
            RecordError::BadAuthor => "author is not a 64-hex NodeId".to_owned(),
            RecordError::BadSignatureFormat => "signature is not 128 hex chars".to_owned(),
            RecordError::BadSignature => "signature did not verify against author key".to_owned(),
            RecordError::Encoding => "canonical encoding failed".to_owned(),
        }
    }
}

/// The content id of a byte string: the hex text of its SHA-256 digest.
pub open spec fn content_id(bytes: Seq<u8>) -> Seq<char> {
    crypto::hex_text(crypto::sha256(bytes))
}

impl RecordModel {
    /// The canonical bytes that the record hashes and signs over.
    pub open spec fn canonical(self) -> Seq<u8> {
        canonical::canonical(self.author, self.created_ms, self.body)
    }

    /// The id that the record's content has.
    pub open spec fn true_id(self) -> Seq<char> {
        content_id(self.canonical())
    }

    /// The author is a NodeId: 64 hex digits.
    pub open spec fn author_is_node(self) -> bool {
        self.author.len() == 64 && crypto::is_hex(self.author)
    }

    /// The lengths in the record fit their prefixes.
    pub open spec fn fits(self) -> bool {
        codec::text_fits(self.author) && canonical::body_fits(self.body)
    }
}

/// What is wrong with a record.
pub enum Flaw {
    IdMismatch,
    BadAuthor,
    BadSignatureFormat,
    BadSignature,
}

/// What is wrong with the record's signature.
pub open spec fn signature_flaw(r: RecordModel) -> Option<Flaw> {
    if !r.author_is_node() {
        Some(Flaw::BadAuthor)
    } else if !(r.sig.len() == 128 && crypto::is_hex(r.sig)) {
        Some(Flaw::BadSignatureFormat)
    } else if !crypto::ed25519_key_valid(crypto::unhex(r.author)) {
        Some(Flaw::BadAuthor)
    } else if !crypto::ed25519_accepts(crypto::unhex(r.author), r.canonical(), crypto::unhex(r.sig)) {
        Some(Flaw::BadSignature)
    } else {
        None
    }
}

/// What is wrong with the record. An empty signature is none.
pub open spec fn flaw(r: RecordModel) -> Option<Flaw> {
    if !r.author_is_node() {
        Some(Flaw::BadAuthor)
    } else if r.id != r.true_id() {
        Some(Flaw::IdMismatch)
    } else if r.sig.len() == 0 {
        None
    } else {
        signature_flaw(r)
    }
}

/// The outcome of a check says exactly what is wrong, if anything.
pub open spec fn reports(outcome: Result<(), RecordError>, found: Option<Flaw>, r: RecordModel) -> bool {
    match found {
        None => outcome is Ok,
        Some(Flaw::IdMismatch) => outcome matches Err(RecordError::IdMismatch { expected, got }) && expected@ == r.id
            && got@ == r.true_id(),
        Some(Flaw::BadAuthor) => outcome matches Err(RecordError::BadAuthor),
        Some(Flaw::BadSignatureFormat) => outcome matches Err(RecordError::BadSignatureFormat),
        Some(Flaw::BadSignature) => outcome matches Err(RecordError::BadSignature),
    }
}

/// Hex SHA-256 of `bytes`: the content id used everywhere.
pub fn cid(bytes: &[u8]) -> (id: String)
    ensures
        id@ == content_id(bytes@),
{
    let digest = crypto::sha256_digest(bytes);
    crypto::hex_encode(&digest)
}

/// The canonical, deterministic byte encoding hashed to form a record's id and signed for `sig`.
pub fn canonical_bytes(author: &str, created_ms: u64, body: &Body) -> (bytes: Result<Vec<u8>, RecordError>)
    ensures
        bytes matches Ok(b) && b@ == canonical::canonical(author@, created_ms, body@),
{
    Ok(canonical::encode(author, created_ms, body))
}

impl Record {
    /// Build a record from its parts, computing the content-addressed id. `sig` is left empty.
    pub fn new(author: &str, created_ms: u64, body: Body) -> (record: Result<Record, RecordError>)
        ensures
            record matches Ok(r) && r@ == (RecordModel {
                id: content_id(canonical::canonical(author@, created_ms, body@)),
                author: author@,
                created_ms,
                body: body@,
                sig: Seq::empty(),
            }),
    {
        let bytes = canonical::encode(author, created_ms, &body);
        let id = cid(&bytes);
        Ok(Record { id, author: author.to_owned(), created_ms, body, sig: String::new() })
    }

    /// The canonical bytes this record hashes and signs over.
    pub fn canonical(&self) -> (bytes: Result<Vec<u8>, RecordError>)
        ensures
            bytes matches Ok(b) && b@ == self@.canonical(),
    {
        canonical_bytes(&self.author, self.created_ms, &self.body)
    }

    /// Recompute the id from the content and check that it matches.
    pub fn verify_id(&self) -> (outcome: Result<(), RecordError>)
        ensures
            reports(
                outcome,
                if self@.id == self@.true_id() {
                    None
                } else {
                    Some(Flaw::IdMismatch)
                },
                self@,
            ),
    {
        let bytes = canonical::encode(&self.author, self.created_ms, &self.body);
        let got = cid(&bytes);
        if !text::same_text(&got, &self.id) {
            return Err(RecordError::IdMismatch { expected: self.id.clone(), got });
        }
        Ok(())
    }

    /// Full validation: well-formed author, matching id, and, if `sig` is non-empty, a valid signature
    /// over the canonical bytes by the author key.
    pub fn verify(&self) -> (outcome: Result<(), RecordError>)
        ensures
            reports(outcome, flaw(self@), self@),
    {
        let is_node: bool = match crypto::hex_decode(&self.author) {
            Some(key) => key.len() == 32,
            None => false,
        };
        if !is_node {
            return Err(RecordError::BadAuthor);
        }
        match self.verify_id() {
            Ok(()) => {},
            Err(e) => {
                return Err(e);
            },
        }
        if self.sig.as_str().is_empty() {
            return Ok(());
        }
        self.verify_sig()
    }

    /// Verify the detached signature against the author key.
    pub fn verify_sig(&self) -> (outcome: Result<(), RecordError>)
        ensures
            reports(outcome, signature_flaw(self@), self@),
    {
        let key = match crypto::hex_decode(&self.author) {
            Some(k) => k,
            None => {
                return Err(RecordError::BadAuthor);
            },
        };
        if key.len() != 32 {
            return Err(RecordError::BadAuthor);
        }
        let sig = match crypto::hex_decode(&self.sig) {
            Some(s) => s,
            None => {
                return Err(RecordError::BadSignatureFormat);
            },
        };
        if sig.len() != 64 {
            return Err(RecordError::BadSignatureFormat);
        }
        if !crypto::key_is_valid(&key) {
            return Err(RecordError::BadAuthor);
        }
        let message = canonical::encode(&self.author, self.created_ms, &self.body);
        if crypto::signature_is_good(&key, &message, &sig) {
            Ok(())
        } else {
            Err(RecordError::BadSignature)
        }
    }

    /// Attach a precomputed signature (128 hex) and return the record.
    pub fn signed(self, sig_hex: &str) -> (record: Record)
        ensures
            record@ == (RecordModel { sig: sig_hex@, ..self@ }),
    {
        Record { sig: sig_hex.to_owned(), ..self }
    }

    /// Sign this record in place with a 32-byte ed25519 secret key whose public half is `author`.
    /// Under any other key the record stays as it is and `BadAuthor` comes back. A record with a true
    /// id verifies once it is signed, unless the signature is a degenerate one.
    pub fn sign_with(&mut self, secret: &[u8; 32]) -> (outcome: Result<(), RecordError>)
        ensures
            if old(self)@.author == crypto::hex_text(crypto::ed25519_public(secret@)) {
                &&& outcome is Ok
                &&& final(self)@ == (RecordModel {
                    sig: crypto::hex_text(crypto::ed25519_signature(secret@, old(self)@.canonical())),
                    ..old(self)@
                })
                &&& final(self)@.sig.len() == 128
                &&& old(self)@.id == old(self)@.true_id() && crypto::ordinary(
                    crypto::ed25519_signature(secret@, old(self)@.canonical()),
                ) ==> flaw(final(self)@) is None
            } else {
                &&& outcome matches Err(RecordError::BadAuthor)
                &&& final(self)@ == old(self)@
            },
    {
        let key = crypto::public_key(secret);
        // Bind the author to this key so that nobody signs under another's name.
        let name = crypto::hex_encode(&key);
        if !text::same_text(&name, &self.author) {
            return Err(RecordError::BadAuthor);
        }
        let message = canonical::encode(&self.author, self.created_ms, &self.body);
        let signature = crypto::sign_message(secret, &message);
        self.sig = crypto::hex_encode(&signature);
        proof {
            crypto::law_hex_roundtrip(key@);
            crypto::law_hex_roundtrip(signature@);
        }
        Ok(())
    }
}

/// Content addressing. Two records that carry one id, each the true one, have the same author, time and
/// body, or exhibit two byte strings with one SHA-256 digest. So a record cannot be altered under its
/// id without failing the id check.
pub proof fn law_same_id_same_content(r: RecordModel, s: RecordModel)
    requires
        r.fits(),
        s.fits(),
        r.id == r.true_id(),
        s.id == s.true_id(),
        r.id == s.id,
    ensures
        (r.author == s.author && r.created_ms == s.created_ms && r.body == s.body) || crypto::collide(
            r.canonical(),
            s.canonical(),
        ),
{
    crypto::lemma_hex_injective(crypto::sha256(r.canonical()), crypto::sha256(s.canonical()));
    if r.canonical() == s.canonical() {
        canonical::law_canonical_is_injective(r.author, r.created_ms, r.body, s.author, s.created_ms, s.body);
    }
}

/// The same author, time and body always have the same id, whoever computes it.
pub proof fn law_same_content_same_id(r: RecordModel, s: RecordModel)
    requires
        r.author == s.author,
        r.created_ms == s.created_ms,
        r.body == s.body,
    ensures
        r.true_id() == s.true_id(),
{
}

/// A record is valid exactly where its author is a NodeId, its id is the hash of its content, and it is
/// unsigned or carries a signature of its content that its author's key accepts.
pub proof fn law_valid_records(r: RecordModel)
    ensures
        flaw(r) is None <==> {
            &&& r.author.len() == 64
            &&& crypto::is_hex(r.author)
            &&& r.id == crypto::hex_text(crypto::sha256(canonical::canonical(r.author, r.created_ms, r.body)))
            &&& r.sig.len() == 0 || (r.sig.len() == 128 && crypto::is_hex(r.sig) && crypto::ed25519_key_valid(
                crypto::unhex(r.author),
            ) && crypto::ed25519_accepts(
                crypto::unhex(r.author),
                canonical::canonical(r.author, r.created_ms, r.body),
                crypto::unhex(r.sig),
            ))
        },
{
}

/// A record that was tampered with is found out. Where one of two records with the same id is valid and the
/// other has another author, time or body, the other is not valid, unless the two exhibit two byte strings
/// with one SHA-256 digest.
pub proof fn law_tampering_is_found_out(r: RecordModel, s: RecordModel)
    requires
        r.fits(),
        s.fits(),
        flaw(r) is None,
        s.id == r.id,
        s.author != r.author || s.created_ms != r.created_ms || s.body != r.body,
    ensures
        flaw(s) is Some || crypto::collide(r.canonical(), s.canonical()),
{
    if flaw(s) is None {
        law_same_id_same_content(r, s);
    }
}

/// What is wrong with a record is named in this order: the author, the id, the form of the signature, the
/// signature.
pub proof fn law_flaws_are_named(r: RecordModel)
    ensures
        !(r.author.len() == 64 && crypto::is_hex(r.author)) ==> flaw(r) == Some(Flaw::BadAuthor),
        r.author.len() == 64 && crypto::is_hex(r.author) && r.id != crypto::hex_text(
            crypto::sha256(canonical::canonical(r.author, r.created_ms, r.body)),
        ) ==> flaw(r) == Some(Flaw::IdMismatch),
        flaw(r) == Some(Flaw::BadSignatureFormat) ==> r.sig.len() > 0 && (r.sig.len() != 128 || !crypto::is_hex(r.sig)),
        flaw(r) == Some(Flaw::BadSignature) ==> !crypto::ed25519_accepts(
            crypto::unhex(r.author),
            canonical::canonical(r.author, r.created_ms, r.body),
            crypto::unhex(r.sig),
        ),
{
}

} // verus!

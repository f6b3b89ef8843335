//! Delegated identity: one identity may authorize another to act as it.
//!
//! The base identity of a request is its authenticated sender. A request may claim another author and
//! present a capability token signed by them; the token is checked outside, and what follows from the
//! check is decided here.
use crate::crypto;
use crate::text;
use vstd::prelude::*;

verus! {

/// The ability a holder must be granted to act as the issuer.
pub const ACT_ABILITY: &'static str = "trana:act";

/// The 32 bytes that a NodeId spells.
pub fn hex32(s: &str) -> (bytes: Option<Vec<u8>>)
    ensures
        match bytes {
            Some(b) => crypto::is_hex(s@) && s@.len() == 64 && b@ == crypto::unhex(s@),
            None => !(crypto::is_hex(s@) && s@.len() == 64),
        },
{
    match crypto::hex_decode(s) {
        Some(b) => if b.len() == 32 {
            Some(b)
        } else {
            None
        },
        None => None,
    }
}

/// The capability with this issuer and nonce is in the revocation set.
pub open spec fn revoked_in(revoked: Seq<(String, u64)>, issuer: Seq<u8>, nonce: u64) -> bool {
    exists|i: int|
        0 <= i < revoked.len() && (#[trigger] revoked[i]).0@ == crypto::hex_text(issuer) && revoked[i].1 == nonce
}

/// Is the capability with this issuer and nonce in the revocation set?
pub fn is_revoked(revoked: &Vec<(String, u64)>, issuer: &[u8], nonce: u64) -> (yes: bool)
    ensures
        yes == revoked_in(revoked@, issuer@, nonce),
{
    let name = crypto::hex_encode(issuer);
    let mut i: usize = 0;
    while i < revoked.len()
        invariant
            i <= revoked@.len(),
            name@ == crypto::hex_text(issuer@),
            forall|j: int|
                0 <= j < i ==> !((#[trigger] revoked@[j]).0@ == crypto::hex_text(issuer@) && revoked@[j].1 == nonce),
        decreases revoked.len() - i,
    {
        if revoked[i].1 == nonce && text::same_text(&revoked[i].0, &name) {
            return true;
        }
        i = i + 1;
    }
    false
}

/// Under whose name a request asks to be carried out.
pub enum Claim {
    /// The sender's own.
    Own,
    /// Another's, with a capability token to be checked.
    Delegated { author: String, token: String },
    /// Another's, with nothing to show for it.
    Unproven,
}

/// The claim of a request that names this author and shows this token.
pub open spec fn claims(author: Option<String>, token: Option<String>, claim: Claim) -> bool {
    match claim {
        Claim::Own => author is None,
        Claim::Delegated { author: a, token: t } => author is Some && token is Some && a@ == author->0@ && t@
            == token->0@,
        Claim::Unproven => author is Some && token is None,
    }
}

/// What a request claims: another author counts only together with a token.
pub fn claim(author: Option<String>, token: Option<String>) -> (claim: Claim)
    ensures
        claims(author, token, claim),
{
    match author {
        None => Claim::Own,
        Some(a) => match token {
            Some(t) => Claim::Delegated { author: a, token: t },
            None => Claim::Unproven,
        },
    }
}

/// The author a request is carried out under: the sender where it claims no other; the claimed author
/// where the token was found to authorize the sender; nobody otherwise.
pub open spec fn effective_author(
    sender: Seq<char>,
    author: Option<Seq<char>>,
    token: bool,
    authorized: bool,
) -> Option<Seq<char>> {
    match author {
        None => Some(sender),
        Some(a) => if token && authorized {
            Some(a)
        } else {
            None
        },
    }
}

/// The author a request is carried out under; `authorized` is what checking a delegated claim's token
/// came to.
pub fn resolve_author(sender: &str, claim: &Claim, authorized: bool) -> (author: Option<String>)
    ensures
        author.deep_view() == (match claim {
            Claim::Own => effective_author(sender@, None, false, authorized),
            Claim::Delegated { author: a, .. } => effective_author(sender@, Some(a@), true, authorized),
            Claim::Unproven => None,
        }),
{
    match claim {
        Claim::Own => Some(sender.to_owned()),
        Claim::Delegated { author, .. } => if authorized {
            Some(author.clone())
        } else {
            None
        },
        Claim::Unproven => None,
    }
}

/// Nobody acts as another without a token that was found good: the effective author is the sender, or
/// the request is refused.
pub proof fn law_no_impersonation(sender: Seq<char>, author: Option<Seq<char>>, token: bool, authorized: bool)
    requires
        !token || !authorized,
    ensures
        effective_author(sender, author, token, authorized) is None || effective_author(
            sender,
            author,
            token,
            authorized,
        ) == Some(sender),
{
}

/// Whoever claims to be nobody else acts as themselves; whoever claims to be another and holds a token that
/// was found good acts as that other; and whoever claims to be another without one is refused, even where the
/// other is themselves.
pub proof fn law_delegation(sender: Seq<char>, author: Seq<char>, token: bool, authorized: bool)
    ensures
        effective_author(sender, None, token, authorized) == Some(sender),
        effective_author(sender, Some(author), true, true) == Some(author),
        !(token && authorized) ==> effective_author(sender, Some(author), token, authorized) is None,
{
}

/// A revocation revokes the one capability that it names, by the issuer's key in hex and the nonce, and no
/// other; nothing takes it back.
pub proof fn law_revocations_revoke_what_they_name(
    revoked: Seq<(String, u64)>,
    entry: (String, u64),
    issuer: Seq<u8>,
    nonce: u64,
)
    ensures
        revoked_in(revoked.push(entry), issuer, nonce) <==> revoked_in(revoked, issuer, nonce) || (entry.0@
            == crypto::hex_text(issuer) && entry.1 == nonce),
        !revoked_in(Seq::empty(), issuer, nonce),
{
    let more = revoked.push(entry);
    if revoked_in(revoked, issuer, nonce) {
        let i = choose|i: int|
            0 <= i < revoked.len() && (#[trigger] revoked[i]).0@ == crypto::hex_text(issuer) && revoked[i].1 == nonce;
        assert(more[i] == revoked[i]);
    }
    if revoked_in(more, issuer, nonce) {
        let i = choose|i: int|
            0 <= i < more.len() && (#[trigger] more[i]).0@ == crypto::hex_text(issuer) && more[i].1 == nonce;
        if i < revoked.len() {
            assert(revoked[i] == more[i]);
        }
    }
    assert(more[revoked.len() as int] == entry);
}

/// A request that names no author is the sender's own, whatever token it shows; one that names an author is
/// delegated with that author and the token it shows, and without a token it is unproven.
pub proof fn law_claims_name_author_and_token(author: Option<String>, token: Option<String>, claim: Claim)
    requires
        claims(author, token, claim),
    ensures
        claim is Own <==> author is None,
        claim is Unproven <==> author is Some && token is None,
        claim is Delegated <==> author is Some && token is Some,
        claim matches Claim::Delegated { author: a, token: t } ==> author.deep_view() == Some(a@)
            && token.deep_view() == Some(t@),
{
}

} // verus!

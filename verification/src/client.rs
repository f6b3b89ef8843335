//! The client: how a typed call is addressed and how its reply is read.
use crate::proto::Envelope;
use crate::refs;
use crate::refs::Ref;
use crate::text;
use vstd::prelude::*;

verus! {

/// Default per-call timeout, milliseconds.
pub const TIMEOUT_MS: u64 = 10_000;

/// How a client makes its calls.
pub struct CallOptions {
    /// Per-call timeout, milliseconds.
    pub timeout_ms: u64,
    /// If set, always call this node instead of locating one.
    pub pinned: Option<String>,
    /// Delegated identity: the claimed author and the capability token that proves the right to it.
    pub act_as: Option<(String, String)>,
}

/// The fields that tell whom a call acts as.
pub open spec fn identity(act_as: Option<(Seq<char>, Seq<char>)>) -> Seq<(Seq<char>, Seq<char>)> {
    match act_as {
        Some((author, token)) => seq![("_as"@, author), ("_cap"@, token)],
        None => Seq::empty(),
    }
}

/// What a reply comes to for the caller: its data, or its error with the topic named.
pub open spec fn comes_to(topic: Seq<char>, reply: Envelope) -> Result<Seq<char>, Seq<char>> {
    if reply.ok {
        Ok(reply.data@)
    } else {
        Err(
            "trana "@ + topic + ": "@ + (match reply.error {
                Some(msg) => msg@,
                None => "unknown error"@,
            }),
        )
    }
}

/// Whose home feed is asked for.
pub open spec fn viewer_for(scope: Seq<char>, viewer: Option<Seq<char>>, own: Seq<char>) -> Option<Seq<char>> {
    match viewer {
        Some(v) => Some(v),
        None => if scope == "home"@ {
            Some(own)
        } else {
            None
        },
    }
}

impl CallOptions {
    /// Locate an instance for each call, as oneself.
    pub fn new() -> (options: Self)
        ensures
            options.timeout_ms == TIMEOUT_MS,
            options.pinned is None,
            options.act_as is None,
    {
        CallOptions { timeout_ms: TIMEOUT_MS, pinned: None, act_as: None }
    }

    /// Send every call to one node.
    pub fn pinned(node_id: &str) -> (options: Self)
        ensures
            options.timeout_ms == TIMEOUT_MS,
            options.pinned.deep_view() == Some(node_id@),
            options.act_as is None,
    {
        CallOptions { timeout_ms: TIMEOUT_MS, pinned: Some(node_id.to_owned()), act_as: None }
    }

    /// Override the per-call timeout.
    pub fn with_timeout(self, ms: u64) -> (options: Self)
        ensures
            options == (CallOptions { timeout_ms: ms, ..self }),
    {
        CallOptions { timeout_ms: ms, ..self }
    }

    /// Act as another identity.
    pub fn with_act_as(self, author: &str, cap_token: &str) -> (options: Self)
        ensures
            options.act_as.deep_view() == Some((author@, cap_token@)),
            options.timeout_ms == self.timeout_ms,
            options.pinned == self.pinned,
    {
        CallOptions { act_as: Some((author.to_owned(), cap_token.to_owned())), ..self }
    }

    /// The fields that a call adds to its request body: whom it acts as, under `_as`, and the token that
    /// proves the right to, under `_cap`; none where it acts as oneself.
    pub fn identity_fields(&self) -> (fields: Vec<(String, String)>)
        ensures
            fields.deep_view() == identity(self.act_as.deep_view()),
    {
        let mut fields: Vec<(String, String)> = Vec::new();
        if let Some((author, token)) = &self.act_as {
            fields.push(("_as".to_owned(), author.clone()));
            fields.push(("_cap".to_owned(), token.clone()));
        }
        assert(fields.deep_view() =~= (match self.act_as {
            Some((author, token)) => seq![("_as"@, author@), ("_cap"@, token@)],
            None => Seq::<(Seq<char>, Seq<char>)>::empty(),
        }));
        fields
    }

    /// The node that every call goes to; `None` where an instance is located for each call.
    pub fn destination(&self) -> (node: Option<&String>)
        ensures
            match node {
                Some(n) => self.pinned == Some(*n),
                None => self.pinned is None,
            },
    {
        self.pinned.as_ref()
    }
}

/// What a call's reply comes to: its data, or its error with the topic named.
pub fn call_result(topic: &str, reply: Envelope) -> (result: Result<String, String>)
    ensures
        match result {
            Ok(data) => comes_to(topic@, reply) == Ok::<Seq<char>, Seq<char>>(data@),
            Err(e) => comes_to(topic@, reply) == Err::<Seq<char>, Seq<char>>(e@),
        },
{
    match reply.outcome() {
        Ok(data) => Ok(data),
        Err(e) => {
            let mut msg = "trana ".to_owned();
            msg.append(topic);
            msg.append(": ");
            msg.append(&e);
            Err(msg)
        },
    }
}

/// The reference to look up, or the words that refuse a text that is none.
pub fn resolvable(uri: &str) -> (found: Result<Ref, String>)
    ensures
        match found {
            Ok(r) => refs::ref_named(uri@) == Some(r@),
            Err(e) => refs::ref_named(uri@) is None && e@ == "not a trana:// ref: "@ + uri@,
        },
{
    match Ref::parse(uri) {
        Some(r) => Ok(r),
        None => {
            let mut msg = "not a trana:// ref: ".to_owned();
            msg.append(uri);
            Err(msg)
        },
    }
}

/// Whose home feed is asked for: the viewer named, or oneself where a home feed names none.
pub fn feed_viewer(scope: &str, viewer: Option<String>, own: &str) -> (effective: Option<String>)
    ensures
        effective.deep_view() == viewer_for(scope@, viewer.deep_view(), own@),
{
    match viewer {
        Some(v) => Some(v),
        None => if text::same_text(scope, "home") {
            Some(own.to_owned())
        } else {
            None
        },
    }
}

/// Acting as another, a call carries that author's name under `_as` and the token under `_cap`, each once and
/// nothing else; acting as oneself it carries neither.
pub proof fn law_calls_carry_their_identity(author: Seq<char>, token: Seq<char>)
    ensures
        identity(None).len() == 0,
        identity(Some((author, token))).len() == 2,
        identity(Some((author, token))).contains(("_as"@, author)),
        identity(Some((author, token))).contains(("_cap"@, token)),
        "_as"@ != "_cap"@,
{
    reveal_strlit("_as");
    reveal_strlit("_cap");
    assert("_as"@.len() == 3 && "_cap"@.len() == 4);
    let fields = identity(Some((author, token)));
    assert(fields[0] == ("_as"@, author));
    assert(fields[1] == ("_cap"@, token));
}

/// A caller gets what the node replied: the data of a success as it is, and the error of a failure with the
/// topic in front of it.
pub proof fn law_callers_get_what_was_replied(topic: Seq<char>, reply: Envelope)
    ensures
        comes_to(topic, reply) is Ok <==> reply.delivers() is Ok,
        reply.delivers() matches Ok(data) ==> comes_to(topic, reply) == Ok::<Seq<char>, Seq<char>>(data),
        reply.delivers() matches Err(msg) ==> comes_to(topic, reply) == Err::<Seq<char>, Seq<char>>(
            "trana "@ + topic + ": "@ + msg,
        ),
{
}

/// A home feed that names no viewer is one's own, and a viewer that is named is kept; other feeds are given no
/// viewer.
pub proof fn law_a_home_feed_is_ones_own(scope: Seq<char>, viewer: Option<Seq<char>>, own: Seq<char>)
    ensures
        viewer is Some ==> viewer_for(scope, viewer, own) == viewer,
        viewer is None && scope == "home"@ ==> viewer_for(scope, viewer, own) == Some(own),
        viewer is None && scope != "home"@ ==> viewer_for(scope, viewer, own) is None,
{
}

} // verus!

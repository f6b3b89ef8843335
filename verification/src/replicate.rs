//! Replication: gossip records network-wide and pin media bytes on nearby nodes.
//!
//! The network work itself happens outside. Here stand the decisions: whether a write needs its bytes
//! placed, which peers get them, what an incoming record leads to, and how the gossip loop reacts to
//! what it meets.
use crate::proto::ReplicateReq;
use crate::record;
use crate::readmodel::StateModel;
use crate::record::RecordError;
use crate::state::MAX_RECORDS;
use crate::store;
use crate::store::Store;
use crate::text;
use vstd::prelude::*;

verus! {

/// Default number of nearby replicas to pin media bytes onto.
pub const DEFAULT_REPLICAS: usize = 3;

/// Per-replica request timeout, milliseconds.
pub const REPLICATE_TIMEOUT_MS: u64 = 8_000;

/// The shortest wait before the gossip stream is reopened, milliseconds.
pub const BACKOFF_FLOOR_MS: u64 = 250;

/// The longest wait before the gossip stream is reopened, milliseconds.
pub const BACKOFF_CEILING_MS: u64 = 10_000;

/// How many replicas to place: the node's default where the request leaves it open.
pub open spec fn replicas_for(requested: u32) -> usize {
    if requested == 0 {
        DEFAULT_REPLICAS
    } else {
        requested as usize
    }
}

/// How many replicas to place: the node's default where the request leaves it open.
pub fn replica_count(requested: u32) -> (replicas: usize)
    ensures
        replicas == replicas_for(requested),
{
    if requested == 0 {
        DEFAULT_REPLICAS
    } else {
        requested as usize
    }
}

/// How many instances to ask discovery for: one more than wanted, since the node may find itself.
pub open spec fn asked_for(want: int) -> int {
    want + 1
}

/// How many instances to ask discovery for: one more than wanted, since the node may find itself.
pub fn locate_count(want: usize) -> (count: usize)
    requires
        want < usize::MAX,
    ensures
        count == asked_for(want as int),
{
    want + 1
}

/// Any instance but one.
pub open spec fn other_than(own: Seq<char>) -> spec_fn(Seq<char>) -> bool {
    |id: Seq<char>| id != own
}

/// The peers that get replicas: the first `want` of the instances found, the node itself left out.
pub open spec fn chosen_replicas(found: Seq<Seq<char>>, own: Seq<char>, want: int) -> Seq<Seq<char>> {
    let others = found.filter(other_than(own));
    if want < others.len() {
        others.take(want)
    } else {
        others
    }
}

/// Pick up to `want` of the instances found to host replicas, the node itself left out.
pub fn pick_replicas(found: Vec<String>, self_id: &str, want: usize) -> (picked: Vec<String>)
    ensures
        picked.deep_view() == chosen_replicas(found.deep_view(), self_id@, want as int),
{
    let ghost all = found.deep_view();
    let ghost keep = other_than(self_id@);
    let mut picked: Vec<String> = Vec::new();
    let mut i: usize = 0;
    proof {
        crate::order::lemma_filter_none(all, keep);
        assert(picked.deep_view() =~= all.take(0).filter(keep));
    }
    while i < found.len()
        invariant
            i <= found@.len(),
            all == found.deep_view(),
            keep == other_than(self_id@),
            picked.deep_view() == all.take(i as int).filter(keep),
        decreases found.len() - i,
    {
        let ghost before = picked.deep_view();
        proof {
            crate::order::lemma_filter_next(all, keep, i as int);
            assert(all[i as int] == found@[i as int]@);
        }
        if !text::same_text(&found[i], self_id) {
            picked.push(found[i].clone());
            assert(picked.deep_view() =~= before.push(all[i as int]));
        }
        i = i + 1;
    }
    proof {
        crate::order::lemma_filter_none(all, keep);
    }
    picked.truncate(want);
    assert(picked.deep_view() =~= chosen_replicas(all, self_id@, want as int));
    picked
}

/// A node never replicates to itself, and to no more peers than wanted.
pub proof fn law_replicas_exclude_self(found: Seq<Seq<char>>, own: Seq<char>, want: nat)
    ensures
        chosen_replicas(found, own, want as int).len() <= want,
        !chosen_replicas(found, own, want as int).contains(own),
        forall|id: Seq<char>| chosen_replicas(found, own, want as int).contains(id) ==> found.contains(id),
{
    let keep = other_than(own);
    let others = found.filter(keep);
    crate::order::lemma_filtered(found, keep);
    let chosen = chosen_replicas(found, own, want as int);
    assert forall|id: Seq<char>| chosen.contains(id) implies found.contains(id) && id != own by {
        let i = choose|i: int| 0 <= i < chosen.len() && chosen[i] == id;
        assert(others[i] == id);
        assert(others.contains(id));
        assert(others.to_set().contains(id));
        assert(found.to_set().filter(keep).contains(id));
    }
}

// ----- broadcasting a write -----

/// Where a broadcast stands.
#[derive(Debug, Clone, Copy, PartialEq, Eq, Structural)]
pub enum BroadcastStage {
    /// The payload is about to be encoded.
    Encoding,
    /// The payload is about to be gossiped.
    Gossiping,
    /// Peers are about to be looked for.
    Selecting,
    /// The payload is about to be pushed to the peer with this index.
    Pushing { next: usize },
    /// Nothing is left to do.
    Finished,
}

/// What the outside work of a stage came to.
#[derive(Debug, Clone, Copy, PartialEq, Eq, Structural)]
pub enum BroadcastEvent {
    /// It worked; after a selection, this many peers were found.
    Done { targets: usize },
    /// It failed.
    Failed,
}

/// There are bytes to place, and replicas wanted.
pub open spec fn to_place(object_cids: Seq<String>, replicas: int) -> bool {
    object_cids.len() > 0 && replicas > 0
}

/// Are there bytes to place, and replicas wanted?
pub fn needs_placement(object_cids: &Vec<String>, replicas: usize) -> (yes: bool)
    ensures
        yes == to_place(object_cids@, replicas as int),
{
    object_cids.len() > 0 && replicas > 0
}

/// The next stage of a broadcast. It is best-effort: a payload that cannot be encoded, or peers that
/// cannot be found, end it; a failed gossip or push does not. Peers are sought only where there are
/// bytes to place; `targets` is how many were found.
pub open spec fn broadcast_step(
    stage: BroadcastStage,
    event: BroadcastEvent,
    place: bool,
    targets: int,
) -> BroadcastStage {
    match stage {
        BroadcastStage::Encoding => if event is Failed {
            BroadcastStage::Finished
        } else {
            BroadcastStage::Gossiping
        },
        BroadcastStage::Gossiping => if place {
            BroadcastStage::Selecting
        } else {
            BroadcastStage::Finished
        },
        BroadcastStage::Selecting => match event {
            BroadcastEvent::Done { targets: n } => if n > 0 {
                BroadcastStage::Pushing { next: 0 }
            } else {
                BroadcastStage::Finished
            },
            BroadcastEvent::Failed => BroadcastStage::Finished,
        },
        BroadcastStage::Pushing { next } => if next + 1 < targets {
            BroadcastStage::Pushing { next: (next + 1) as usize }
        } else {
            BroadcastStage::Finished
        },
        BroadcastStage::Finished => BroadcastStage::Finished,
    }
}

/// The next stage of a broadcast.
pub fn next_broadcast_stage(
    stage: BroadcastStage,
    event: BroadcastEvent,
    place: bool,
    targets: usize,
) -> (next: BroadcastStage)
    ensures
        next == broadcast_step(stage, event, place, targets as int),
{
    match stage {
        BroadcastStage::Encoding => match event {
            BroadcastEvent::Failed => BroadcastStage::Finished,
            BroadcastEvent::Done { .. } => BroadcastStage::Gossiping,
        },
        BroadcastStage::Gossiping => if place {
            BroadcastStage::Selecting
        } else {
            BroadcastStage::Finished
        },
        BroadcastStage::Selecting => match event {
            BroadcastEvent::Done { targets: n } => if n > 0 {
                BroadcastStage::Pushing { next: 0 }
            } else {
                BroadcastStage::Finished
            },
            BroadcastEvent::Failed => BroadcastStage::Finished,
        },
        BroadcastStage::Pushing { next } => if targets > 0 && next < targets - 1 {
            BroadcastStage::Pushing { next: next + 1 }
        } else {
            BroadcastStage::Finished
        },
        BroadcastStage::Finished => BroadcastStage::Finished,
    }
}

/// Where a broadcast stands after these events, from `start` on.
pub open spec fn broadcast_run(
    start: BroadcastStage,
    events: Seq<BroadcastEvent>,
    place: bool,
    targets: int,
) -> BroadcastStage
    decreases events.len(),
{
    if events.len() == 0 {
        start
    } else {
        broadcast_step(broadcast_run(start, events.drop_last(), place, targets), events.last(), place, targets)
    }
}

/// Once `n` peers are selected, the payload is pushed to each of them, once and in order, whatever each
/// push comes to, and then the broadcast is finished and stays so: after the first `k` pushes it stands
/// before the push to peer `k`, where there is one.
pub proof fn law_broadcast_pushes_to_each_peer(pushes: Seq<BroadcastEvent>, place: bool, n: usize)
    ensures
        broadcast_run(
            BroadcastStage::Selecting,
            seq![BroadcastEvent::Done { targets: n }] + pushes,
            place,
            n as int,
        ) == (if pushes.len() < n {
            BroadcastStage::Pushing { next: pushes.len() as usize }
        } else {
            BroadcastStage::Finished
        }),
    decreases pushes.len(),
{
    let selected = seq![BroadcastEvent::Done { targets: n }];
    let events = selected + pushes;
    if pushes.len() == 0 {
        assert(events =~= selected);
        assert(events.drop_last() =~= Seq::empty());
        assert(broadcast_run(BroadcastStage::Selecting, events.drop_last(), place, n as int)
            == BroadcastStage::Selecting);
    } else {
        law_broadcast_pushes_to_each_peer(pushes.drop_last(), place, n);
        assert(events.drop_last() =~= selected + pushes.drop_last());
    }
}

/// A whole broadcast: the payload is encoded, then gossiped, whatever that comes to, then, only where there
/// are bytes to place, peers are sought, and each of them gets one push, in order. Nothing happens after a
/// payload that cannot be encoded or peers that cannot be found.
pub proof fn law_broadcast_runs_its_course(events: Seq<BroadcastEvent>, place: bool, n: usize)
    requires
        events.len() > 2 && events[2] is Done ==> events[2]->targets == n,
    ensures
        broadcast_run(BroadcastStage::Encoding, events, place, n as int) == (if events.len() == 0 {
            BroadcastStage::Encoding
        } else if events[0] is Failed {
            BroadcastStage::Finished
        } else if events.len() == 1 {
            BroadcastStage::Gossiping
        } else if !place {
            BroadcastStage::Finished
        } else if events.len() == 2 {
            BroadcastStage::Selecting
        } else if events[2] is Done && events.len() - 3 < n {
            BroadcastStage::Pushing { next: (events.len() - 3) as usize }
        } else {
            BroadcastStage::Finished
        }),
    decreases events.len(),
{
    if events.len() > 0 {
        law_broadcast_runs_its_course(events.drop_last(), place, n);
    }
}

// ----- taking in a replicated record -----

/// What an incoming replication request led to.
pub enum Ingested {
    /// The record is invalid; nothing changed.
    Rejected { error: RecordError },
    /// The record was already held.
    Known,
    /// The record is new; `pull` tells whether its objects are to be pulled.
    Fresh { pull: bool },
}

/// What a replication request leads to where the model is `m`.
pub open spec fn ingested(m: StateModel, req: ReplicateReq, outcome: Ingested) -> bool {
    match outcome {
        Ingested::Rejected { error } => record::flaw(req.record@) is Some && record::reports(
            Err(error),
            record::flaw(req.record@),
            req.record@,
        ),
        Ingested::Known => record::flaw(req.record@) is None && m.seen.contains(req.record.id@),
        Ingested::Fresh { pull } => store::accepts(m, req.record@) && pull == (req.object_cids@.len() > 0),
    }
}

/// Fold in the record of a replication request. Objects are pulled only for records not seen before.
pub fn ingest_replication(store: &mut Store, req: &ReplicateReq) -> (outcome: Ingested)
    requires
        old(store).wf(),
        old(store)@.seen.len() < MAX_RECORDS,
    ensures
        final(store).wf(),
        final(store)@ == store::offered(old(store)@, req.record@),
        ingested(old(store)@, *req, outcome),
{
    match store.ingest(&req.record) {
        Ok(newly) => if newly {
            Ingested::Fresh { pull: req.object_cids.len() > 0 }
        } else {
            Ingested::Known
        },
        Err(error) => Ingested::Rejected { error },
    }
}

// ----- the gossip loop -----

/// Where the gossip loop stands.
#[derive(Debug, Clone, Copy, PartialEq, Eq, Structural)]
pub struct Gossip {
    /// Is the message stream open?
    pub connected: bool,
    /// How long to wait after the next failure to open it, milliseconds.
    pub backoff_ms: u64,
}

/// What the gossip loop meets.
#[derive(Debug, Clone, Copy, PartialEq, Eq, Structural)]
pub enum GossipEvent {
    /// The stream opened.
    Opened,
    /// The stream could not be opened.
    OpenFailed,
    /// A message came: on the gossip topic or not, awaiting a reply or not, with a readable payload
    /// or not.
    Message { on_topic: bool, wants_reply: bool, readable: bool },
    /// The stream broke or ended.
    Lost,
    /// The node is shutting down.
    Shutdown,
}

/// What the gossip loop does next.
#[derive(Debug, Clone, Copy, PartialEq, Eq, Structural)]
pub enum GossipAction {
    /// Open the stream.
    Open,
    /// Wait this long, then open the stream.
    WaitThenOpen { ms: u64 },
    /// Wait for the next message.
    Listen,
    /// Take the message's record in, then wait for the next message.
    Ingest,
    /// Stop.
    Stop,
}

/// The start: not connected, shortest backoff.
pub fn gossip_start() -> (gossip: Gossip)
    ensures
        gossip == (Gossip { connected: false, backoff_ms: BACKOFF_FLOOR_MS }),
{
    Gossip { connected: false, backoff_ms: BACKOFF_FLOOR_MS }
}

/// The backoff after a failure: doubled, up to the ceiling.
pub open spec fn doubled(ms: u64) -> u64 {
    if 2 * ms <= BACKOFF_CEILING_MS {
        (2 * ms) as u64
    } else {
        BACKOFF_CEILING_MS
    }
}

/// How the loop reacts. Every opening resets the backoff; every failed one doubles it. Only pub/sub
/// messages (awaiting no reply) on the gossip topic are taken in.
pub open spec fn gossip_step(g: Gossip, event: GossipEvent) -> (Gossip, GossipAction) {
    match event {
        GossipEvent::Opened => (Gossip { connected: true, backoff_ms: BACKOFF_FLOOR_MS }, GossipAction::Listen),
        GossipEvent::OpenFailed => (
            Gossip { connected: false, backoff_ms: doubled(g.backoff_ms) },
            GossipAction::WaitThenOpen { ms: g.backoff_ms },
        ),
        GossipEvent::Message { on_topic, wants_reply, readable } => (
            g,
            if on_topic && !wants_reply && readable {
                GossipAction::Ingest
            } else {
                GossipAction::Listen
            },
        ),
        GossipEvent::Lost => (Gossip { connected: false, ..g }, GossipAction::Open),
        GossipEvent::Shutdown => (g, GossipAction::Stop),
    }
}

/// The loop's reaction to what it meets.
pub fn gossip_next(g: Gossip, event: GossipEvent) -> (next: (Gossip, GossipAction))
    ensures
        next == gossip_step(g, event),
{
    match event {
        GossipEvent::Opened => (Gossip { connected: true, backoff_ms: BACKOFF_FLOOR_MS }, GossipAction::Listen),
        GossipEvent::OpenFailed => {
            let backoff_ms: u64 = if g.backoff_ms <= BACKOFF_CEILING_MS / 2 {
                g.backoff_ms * 2
            } else {
                BACKOFF_CEILING_MS
            };
            (Gossip { connected: false, backoff_ms }, GossipAction::WaitThenOpen { ms: g.backoff_ms })
        },
        GossipEvent::Message { on_topic, wants_reply, readable } => {
            let action = if on_topic && !wants_reply && readable {
                GossipAction::Ingest
            } else {
                GossipAction::Listen
            };
            (g, action)
        },
        GossipEvent::Lost => (Gossip { connected: false, backoff_ms: g.backoff_ms }, GossipAction::Open),
        GossipEvent::Shutdown => (g, GossipAction::Stop),
    }
}

/// The loop after a sequence of events.
pub open spec fn gossip_run(events: Seq<GossipEvent>) -> Gossip
    decreases events.len(),
{
    if events.len() == 0 {
        Gossip { connected: false, backoff_ms: BACKOFF_FLOOR_MS }
    } else {
        gossip_step(gossip_run(events.drop_last()), events.last()).0
    }
}

/// Whatever the loop meets, it never waits less than the floor or more than the ceiling.
pub proof fn law_gossip_backoff_is_bounded(events: Seq<GossipEvent>)
    ensures
        BACKOFF_FLOOR_MS <= gossip_run(events).backoff_ms <= BACKOFF_CEILING_MS,
    decreases events.len(),
{
    if events.len() > 0 {
        law_gossip_backoff_is_bounded(events.drop_last());
    }
}

/// The places of all instances but one, in order.
proof fn lemma_others(found: Seq<Seq<char>>, own: Seq<char>) -> (at: Seq<int>)
    ensures
        at.len() == found.filter(other_than(own)).len(),
        forall|k: int|
            0 <= k < at.len() ==> 0 <= #[trigger] at[k] < found.len() && found[at[k]] != own && found.filter(
                other_than(own),
            )[k] == found[at[k]],
        forall|k: int, l: int| 0 <= k < l < at.len() ==> #[trigger] at[k] < #[trigger] at[l],
        forall|x: int| 0 <= x < found.len() && (#[trigger] found[x]) != own ==> at.contains(x),
    decreases found.len(),
{
    reveal(Seq::filter);
    if found.len() == 0 {
        Seq::empty()
    } else {
        let before = found.drop_last();
        let shorter = lemma_others(before, own);
        let last = found.len() - 1;
        assert(forall|x: int| 0 <= x < last ==> #[trigger] before[x] == found[x]);
        if found.last() != own {
            let at = shorter.push(last);
            assert(forall|k: int| 0 <= k < shorter.len() ==> #[trigger] at[k] == shorter[k]);
            assert forall|x: int| 0 <= x < found.len() && (#[trigger] found[x]) != own implies at.contains(x) by {
                if x == last {
                    assert(at[shorter.len() as int] == x);
                } else {
                    assert(before[x] != own);
                    let k = choose|k: int| 0 <= k < shorter.len() && shorter[k] == x;
                    assert(at[k] == x);
                }
            }
            at
        } else {
            assert forall|x: int| 0 <= x < found.len() && (#[trigger] found[x]) != own implies shorter.contains(x) by {
                assert(before[x] != own);
            }
            shorter
        }
    }
}

/// Replicas go to the first of the other instances that were found, in the order in which they were found:
/// as many as wanted, or all of them where there are fewer; only the node itself is passed over.
pub proof fn law_replicas_are_the_first_others(found: Seq<Seq<char>>, own: Seq<char>, want: nat)
    ensures
        exists|at: Seq<int>|
            #![trigger at.no_duplicates()]
            {
                let chosen = chosen_replicas(found, own, want as int);
                &&& at.no_duplicates()
                &&& at.len() == chosen.len()
                &&& forall|k: int|
                    0 <= k < at.len() ==> 0 <= #[trigger] at[k] < found.len() && chosen[k] == found[at[k]] && chosen[k]
                        != own
                &&& forall|k: int, l: int| 0 <= k < l < at.len() ==> #[trigger] at[k] < #[trigger] at[l]
                &&& chosen.len() <= want
                &&& forall|x: int|
                    0 <= x < found.len() && (#[trigger] found[x]) != own && !at.contains(x) ==> chosen.len() == want
                        && forall|k: int| 0 <= k < at.len() ==> #[trigger] at[k] < x
            },
{
    let all = lemma_others(found, own);
    let others = found.filter(other_than(own));
    let chosen = chosen_replicas(found, own, want as int);
    let at = if want < all.len() {
        all.take(want as int)
    } else {
        all
    };
    assert(forall|k: int| 0 <= k < at.len() ==> #[trigger] at[k] == all[k]);
    assert(at.no_duplicates()) by {
        assert forall|k: int, l: int| 0 <= k < at.len() && 0 <= l < at.len() && k != l implies at[k] != at[l] by {
            if k < l {
                assert(all[k] < all[l]);
            } else {
                assert(all[l] < all[k]);
            }
        }
    }
    assert forall|x: int| 0 <= x < found.len() && (#[trigger] found[x]) != own && !at.contains(x) implies chosen.len()
        == want && forall|k: int| 0 <= k < at.len() ==> #[trigger] at[k] < x by {
        let l = choose|l: int| 0 <= l < all.len() && all[l] == x;
        if l < at.len() {
            assert(at[l] == x);
        }
        assert forall|k: int| 0 <= k < at.len() implies #[trigger] at[k] < x by {
            assert(all[k] < all[l]);
        }
    }
}

/// The gossip loop takes in exactly the readable messages that come on the gossip topic and await no reply;
/// any other message leaves it listening. No message changes how it stands.
pub proof fn law_gossip_takes_in_its_own_topic_only(g: Gossip, on_topic: bool, wants_reply: bool, readable: bool)
    ensures
        ({
            let (next, action) = gossip_step(g, GossipEvent::Message { on_topic, wants_reply, readable });
            &&& next == g
            &&& action is Ingest <==> on_topic && !wants_reply && readable
            &&& action is Ingest || action is Listen
        }),
{
}

/// The longest wait that doubling reaches.
pub open spec fn waited(failures: nat) -> nat
    decreases failures,
{
    if failures == 0 {
        250
    } else if 2 * waited((failures - 1) as nat) < 10_000 {
        2 * waited((failures - 1) as nat)
    } else {
        10_000
    }
}

/// However the loop got where it is, once its stream has opened it listens, and is connected. After that each
/// failure to open the stream again is waited out, a quarter of a second at first and twice as long each time,
/// up to ten seconds; a stream that is lost is opened again at once, and only a shutdown stops the loop.
pub proof fn law_gossip_backs_off_and_recovers(events: Seq<GossipEvent>, failures: nat)
    ensures
        ({
            let opened = events.push(GossipEvent::Opened);
            let failed = opened + Seq::new(failures, |i: int| GossipEvent::OpenFailed);
            &&& gossip_run(opened).connected
            &&& gossip_step(gossip_run(events), GossipEvent::Opened).1 is Listen
            &&& gossip_run(failed).backoff_ms == waited(failures)
            &&& failures > 0 ==> !gossip_run(failed).connected
            &&& gossip_step(gossip_run(failed), GossipEvent::OpenFailed).1 == (GossipAction::WaitThenOpen {
                ms: waited(failures) as u64,
            })
            &&& gossip_step(gossip_run(failed), GossipEvent::Lost).1 is Open
            &&& !gossip_step(gossip_run(failed), GossipEvent::Lost).0.connected
            &&& forall|event: GossipEvent| #[trigger]
                gossip_step(gossip_run(failed), event).1 is Stop <==> event is Shutdown
        }),
    decreases failures,
{
    let opened = events.push(GossipEvent::Opened);
    let failed = opened + Seq::new(failures, |i: int| GossipEvent::OpenFailed);
    assert(opened.drop_last() =~= events);
    lemma_waited(failures);
    if failures == 0 {
        assert(failed =~= opened);
    } else {
        let fewer = (failures - 1) as nat;
        law_gossip_backs_off_and_recovers(events, fewer);
        lemma_waited(fewer);
        assert(failed.drop_last() =~= opened + Seq::new(fewer, |i: int| GossipEvent::OpenFailed));
        assert(failed.last() is OpenFailed);
    }
}

proof fn lemma_waited(failures: nat)
    ensures
        250 <= waited(failures) <= 10_000,
    decreases failures,
{
    if failures > 0 {
        lemma_waited((failures - 1) as nat);
    }
}

/// Asking for one instance more than wanted is enough: of that many different ones as many as wanted are
/// others than the node itself. No more than that are asked for.
pub proof fn law_enough_are_asked_for(found: Seq<Seq<char>>, own: Seq<char>, want: nat)
    requires
        found.no_duplicates(),
        found.len() == asked_for(want as int),
    ensures
        chosen_replicas(found, own, want as int).len() == want,
        asked_for(want as int) <= want + 1,
{
    let all = lemma_others(found, own);
    if found.contains(own) {
        let x = choose|x: int| 0 <= x < found.len() && found[x] == own;
        assert forall|y: int| 0 <= y < found.len() && y != x implies #[trigger] all.contains(y) by {
            assert(found[y] != own);
        }
        lemma_all_but_one(all, found.len() as int, x);
    } else {
        assert forall|y: int| 0 <= y < found.len() && y != -1 implies #[trigger] all.contains(y) by {
            assert(found.contains(found[y]));
        }
        lemma_all_but_one(all, found.len() as int, -1);
    }
}

/// A list that holds every place but perhaps one has at least one place less than there are.
proof fn lemma_all_but_one(at: Seq<int>, n: int, x: int)
    requires
        forall|k: int, l: int| 0 <= k < l < at.len() ==> #[trigger] at[k] < #[trigger] at[l],
        forall|y: int| 0 <= y < n && y != x ==> #[trigger] at.contains(y),
        n >= 0,
    ensures
        at.len() >= n - 1,
{
    let wanted = Set::new(|y: int| 0 <= y < n && y != x);
    let range = vstd::set_lib::set_int_range(0, n);
    vstd::set_lib::lemma_int_range(0, n);
    assert(at.no_duplicates()) by {
        assert forall|k: int, l: int| 0 <= k < at.len() && 0 <= l < at.len() && k != l implies at[k] != at[l] by {
            if k < l {
                assert(at[k] < at[l]);
            } else {
                assert(at[l] < at[k]);
            }
        }
    }
    at.unique_seq_to_set();
    assert(wanted =~= range.remove(x));
    assert(wanted.subset_of(at.to_set())) by {
        assert forall|y: int| wanted.contains(y) implies at.to_set().contains(y) by {
            assert(at.contains(y));
        }
    }
    vstd::set_lib::lemma_len_subset(wanted, at.to_set());
}

/// Bytes are placed exactly where a write has some and replicas of them are wanted: one object and one replica
/// are enough, and without either nothing is placed.
pub proof fn law_bytes_are_placed_where_wanted(object_cids: Seq<String>, replicas: nat)
    ensures
        object_cids.len() >= 1 && replicas >= 1 ==> to_place(object_cids, replicas as int),
        object_cids.len() == 0 ==> !to_place(object_cids, replicas as int),
        replicas == 0 ==> !to_place(object_cids, replicas as int),
{
}

/// A replica of a record is taken in once: an invalid record is rejected; a valid one is new the first time,
/// and then its objects are pulled if it brings any; after that it is known, and nothing is pulled.
pub proof fn law_replicas_are_taken_in_once(m: StateModel, req: ReplicateReq, first: Ingested, second: Ingested)
    requires
        ingested(m, req, first),
        ingested(store::offered(m, req.record@), req, second),
    ensures
        first is Rejected <==> record::flaw(req.record@) is Some,
        first is Known <==> record::flaw(req.record@) is None && m.seen.contains(req.record@.id),
        first matches Ingested::Fresh { pull } ==> (pull <==> req.object_cids@.len() > 0),
        first is Fresh ==> second is Known,
        first is Rejected ==> second is Rejected,
{
}

/// A request gets as many replicas as it asks for, and three where it leaves that open.
pub proof fn law_replicas_are_as_requested(requested: u32)
    ensures
        requested > 0 ==> replicas_for(requested) == requested,
        requested == 0 ==> replicas_for(requested) == 3,
{
}

} // verus!

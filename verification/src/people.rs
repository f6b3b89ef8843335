//! People: profiles, media, follows, and the social-karma aggregate.
use crate::ballot;
use crate::double;
use crate::double::Double;
use crate::feed;
use crate::governance;
use crate::karma::SocialKarma;
use crate::model::{Media, Profile};
use crate::order;
use crate::readmodel::StateModel;
use crate::state::{State, MAX_RECORDS};
use crate::sums;
use crate::text;
use vstd::prelude::*;

verus! {

/// A profile as returned to readers: the stored profile plus the author key and last-update time.
pub struct ProfileView {
    pub node_id: String,
    pub profile: Profile,
    pub updated_ms: u64,
}

/// The media that `author` registered.
pub open spec fn media_of(m: StateModel, author: Seq<char>) -> Set<Seq<char>> {
    m.media.dom().filter(|id: Seq<char>| m.media[id].author == author)
}

/// Everyone whom `follower` follows.
pub open spec fn followed_by(m: StateModel, follower: Seq<char>) -> Set<Seq<char>> {
    m.follows.dom().filter(|who: Seq<char>| feed::follows(m, follower, who))
}

/// The followers of `followee`.
pub open spec fn followers_of(m: StateModel, followee: Seq<char>) -> Set<Seq<char>> {
    ballot::voters_of(ballot::marks_on(m.follows, followee), 1)
}

/// The thread roots (`root`) or the comments (`!root`) that `user` authored.
pub open spec fn authored(m: StateModel, user: Seq<char>, root: bool) -> Set<Seq<char>> {
    m.posts.dom().filter(|id: Seq<char>| m.posts[id].author == user && m.posts[id].post.is_root() == root)
}

/// The upvotes on `id`.
pub open spec fn ups_on(m: StateModel, id: Seq<char>) -> int {
    ballot::count_of(ballot::marks_on(m.votes, id), 1) as int
}

/// The downvotes on `id`.
pub open spec fn downs_on(m: StateModel, id: Seq<char>) -> int {
    ballot::count_of(ballot::marks_on(m.votes, id), -1) as int
}

/// Upvotes on all of `ids`.
pub open spec fn total_ups(m: StateModel, ids: Set<Seq<char>>) -> int {
    sums::sum_over(ids, |id: Seq<char>| ups_on(m, id))
}

/// Downvotes on all of `ids`.
pub open spec fn total_downs(m: StateModel, ids: Set<Seq<char>>) -> int {
    sums::sum_over(ids, |id: Seq<char>| downs_on(m, id))
}

/// The social aggregate of a user: counts and net scores of roots and of comments, votes received and
/// followers; the effective score is the net karma.
pub open spec fn social_is(m: StateModel, user: Seq<char>, k: SocialKarma) -> bool {
    let roots = authored(m, user, true);
    let replies = authored(m, user, false);
    &&& k.posts == roots.len()
    &&& k.comments == replies.len()
    &&& k.post_score == total_ups(m, roots) - total_downs(m, roots)
    &&& k.comment_score == total_ups(m, replies) - total_downs(m, replies)
    &&& k.upvotes == total_ups(m, roots) + total_ups(m, replies)
    &&& k.downvotes == total_downs(m, roots) + total_downs(m, replies)
    &&& k.followers == followers_of(m, user).len()
    &&& k.effective_score == double::whole(k.net())
}

/// The owner that a device currently says it belongs to.
pub open spec fn owner_of(m: StateModel, device: Seq<char>) -> Option<Seq<char>> {
    if m.links.contains_key(device) && m.links[device].link.active {
        Some(m.links[device].link.owner)
    } else {
        None
    }
}

/// The device points back at `node`.
pub open spec fn points_at(m: StateModel, node: Seq<char>) -> spec_fn(Seq<char>) -> bool {
    |device: Seq<char>| owner_of(m, device) == Some(node)
}

/// The devices that `node` declares.
pub open spec fn declared_devices(m: StateModel, node: Seq<char>) -> Seq<Seq<char>> {
    if m.profiles.contains_key(node) {
        m.profiles[node].profile.devices
    } else {
        Seq::empty()
    }
}

/// The devices bound to `node`: it declares them, and they point back at it.
pub open spec fn bound_devices(m: StateModel, node: Seq<char>) -> Seq<Seq<char>> {
    declared_devices(m, node).filter(points_at(m, node))
}

impl State {
    /// The owner that a device currently says it belongs to.
    pub fn device_owner(&self, device: &str) -> (owner: Option<String>)
        requires
            self.wf(),
        ensures
            owner.deep_view() == owner_of(self@, device@),
    {
        match self.link_table().get(device) {
            Some(l) => if l.link.active {
                Some(l.link.owner.clone())
            } else {
                None
            },
            None => None,
        }
    }

    /// The devices bound to a node: it declares them in its profile, and they point back at it. Naming
    /// a device alone binds nothing.
    pub fn linked_devices(&self, node_id: &str) -> (devices: Vec<String>)
        requires
            self.wf(),
        ensures
            devices.deep_view() == bound_devices(self@, node_id@),
    {
        let mut devices: Vec<String> = Vec::new();
        let ghost keep = points_at(self@, node_id@);
        let ghost all = declared_devices(self@, node_id@);
        match self.profile_table().get(node_id) {
            Some(p) => {
                let declared = &p.profile.devices;
                let mut i: usize = 0;
                proof {
                    assert(all == declared.deep_view());
                    order::lemma_filter_none(all, keep);
                    assert(devices.deep_view() =~= all.take(0).filter(keep));
                }
                while i < declared.len()
                    invariant
                        self.wf(),
                        i <= declared@.len(),
                        all == declared.deep_view(),
                        keep == points_at(self@, node_id@),
                        devices.deep_view() == all.take(i as int).filter(keep),
                    decreases declared.len() - i,
                {
                    let ghost before = devices.deep_view();
                    proof {
                        order::lemma_filter_next(all, keep, i as int);
                        assert(all[i as int] == declared@[i as int]@);
                    }
                    if let Some(owner) = self.device_owner(&declared[i]) {
                        if text::same_text(&owner, node_id) {
                            devices.push(declared[i].clone());
                            assert(devices.deep_view() =~= before.push(all[i as int]));
                        }
                    }
                    i = i + 1;
                }
                proof {
                    order::lemma_filter_none(all, keep);
                }
            },
            None => {
                proof {
                    reveal(Seq::filter);
                    assert(devices.deep_view() =~= all.filter(keep));
                }
            },
        }
        devices
    }

    /// A user's profile, if they have published one.
    pub fn profile(&self, node_id: &str) -> (view: Option<ProfileView>)
        requires
            self.wf(),
        ensures
            match view {
                Some(v) => {
                    &&& self@.profiles.contains_key(node_id@)
                    &&& v.node_id@ == node_id@
                    &&& v.profile@ == self@.profiles[node_id@].profile
                    &&& v.updated_ms == self@.profiles[node_id@].updated_ms
                },
                None => !self@.profiles.contains_key(node_id@),
            },
    {
        match self.profile_table().get(node_id) {
            Some(p) => Some(
                ProfileView { node_id: node_id.to_owned(), profile: p.profile.clone(), updated_ms: p.updated_ms },
            ),
            None => None,
        }
    }

    /// A media descriptor by record id.
    pub fn media(&self, media_id: &str) -> (media: Option<Media>)
        requires
            self.wf(),
        ensures
            match media {
                Some(m) => self@.media.contains_key(media_id@) && m@ == self@.media[media_id@].media,
                None => !self@.media.contains_key(media_id@),
            },
    {
        match self.media_table().get(media_id) {
            Some(m) => Some(m.media.clone()),
            None => None,
        }
    }

    /// All media authored by a user, newest first.
    pub fn media_by(&self, author: &str) -> (found: Vec<(String, Media)>)
        requires
            self.wf(),
        ensures
            forall|i: int|
                0 <= i < found@.len() ==> (#[trigger] found@[i]).1@ == self@.media[found@[i].0@].media,
            found@.map_values(|f: (String, Media)| f.0@).no_duplicates(),
            found@.map_values(|f: (String, Media)| f.0@).to_set() == media_of(self@, author@),
            order::newest_first(found@.map_values(|f: (String, Media)| (self@.media[f.0@].created_ms, f.0@))),
    {
        let table = self.media_table();
        let ghost names = table.order();
        let ghost keep = |id: Seq<char>| self@.media[id].author == author@;
        proof {
            table.lemma_order();
            order::lemma_filter_none(names, keep);
        }
        let mut picked: Vec<usize> = Vec::new();
        let mut times: Vec<u64> = Vec::new();
        let mut ids: Vec<String> = Vec::new();
        let n: usize = table.len();
        let mut i: usize = 0;
        while i < n
            invariant
                i <= n,
                n == names.len(),
                names == table.order(),
                table.wf(),
                keep == (|id: Seq<char>| self@.media[id].author == author@),
                forall|k: Seq<char>| #[trigger] table@.contains_key(k) ==> table@[k]@ == self@.media[k],
                times@.len() == picked@.len(),
                ids@.len() == picked@.len(),
                forall|j: int| 0 <= j < picked@.len() ==> (#[trigger] ids@[j])@ == names[picked@[j] as int],
                forall|j: int| 0 <= j < picked@.len() ==> (#[trigger] picked@[j]) < n,
                picked@.map_values(|p: usize| names[p as int]) == names.take(i as int).filter(keep),
                forall|j: int|
                    0 <= j < picked@.len() ==> #[trigger] times@[j] == self@.media[names[picked@[j] as int]].created_ms,
            decreases n - i,
        {
            let m = table.val_at(i);
            let ghost before = picked@;
            proof {
                order::lemma_filter_next(names, keep, i as int);
            }
            if text::same_text(&m.author, author) {
                picked.push(i);
                times.push(m.created_ms);
                ids.push(table.key_at(i).clone());
                proof {
                    assert(picked@.map_values(|p: usize| names[p as int]) =~= before.map_values(
                        |p: usize| names[p as int],
                    ).push(names[i as int]));
                }
            }
            i = i + 1;
        }
        let ghost chosen = names.filter(keep);
        let sorted = order::by_time(&times, &ids);
        let ghost indices = sorted@.map_values(|i: usize| i as int);
        proof {
            order::lemma_filtered(names, keep);
            assert(picked@.map_values(|p: usize| names[p as int]).len() == picked@.len());
            order::lemma_arranged(chosen, indices);
            assert(names.to_set().filter(keep) =~= media_of(self@, author@));
        }
        let mut found: Vec<(String, Media)> = Vec::new();
        let mut i: usize = 0;
        while i < sorted.len()
            invariant
                i <= sorted@.len(),
                n == names.len(),
                names == table.order(),
                table.wf(),
                forall|k: Seq<char>| #[trigger] table@.contains_key(k) ==> table@[k]@ == self@.media[k],
                sorted@.len() == picked@.len(),
                indices == sorted@.map_values(|i: usize| i as int),
                order::lists_all(indices, sorted@.len() as int),
                forall|j: int| 0 <= j < picked@.len() ==> (#[trigger] picked@[j]) < n,
                chosen == picked@.map_values(|p: usize| names[p as int]),
                found@.len() == i,
                forall|j: int|
                    0 <= j < i ==> (#[trigger] found@[j]).0@ == chosen[indices[j]] && found@[j].1@
                        == self@.media[chosen[indices[j]]].media,
            decreases sorted.len() - i,
        {
            let at: usize = sorted[i];
            assert(at as int == indices[i as int]);
            let slot: usize = picked[at];
            assert(chosen[at as int] == names[slot as int]);
            found.push((table.key_at(slot).clone(), table.val_at(slot).media.clone()));
            i = i + 1;
        }
        proof {
            assert(found@.map_values(|f: (String, Media)| f.0@) =~= order::arranged(chosen, indices));
            let stamps = order::stamps_of(times@, ids@);
            let shown = found@.map_values(|f: (String, Media)| (self@.media[f.0@].created_ms, f.0@));
            assert forall|j: int| 0 <= j < found@.len() implies shown[j] == order::arranged(stamps, indices)[j] by {
                assert(found@[j].0@ == chosen[indices[j]]);
                assert(chosen[indices[j]] == names[picked@[indices[j]] as int]);
                assert(times@[indices[j]] == self@.media[names[picked@[indices[j]] as int]].created_ms);
                assert(ids@[indices[j]]@ == names[picked@[indices[j]] as int]);
            }
            assert(shown =~= order::arranged(stamps, indices));
        }
        found
    }

    /// Everyone `follower` follows, each once, in ascending order.
    pub fn following(&self, follower: &str) -> (found: Vec<String>)
        requires
            self.wf(),
        ensures
            found.deep_view().no_duplicates(),
            found.deep_view().to_set() == followed_by(self@, follower@),
            order::alphabetical(found.deep_view()),
    {
        let ledger = self.follow_ledger();
        let ghost names = ledger.order();
        let ghost keep = |who: Seq<char>| feed::follows(self@, follower@, who);
        let mut found: Vec<String> = Vec::new();
        proof {
            ledger.lemma_wf();
            order::lemma_filter_none(names, keep);
            assert(found.deep_view() =~= Seq::empty());
        }
        let n: usize = ledger.len();
        let mut i: usize = 0;
        while i < n
            invariant
                i <= n,
                n == names.len(),
                names == ledger.order(),
                ledger.wf(),
                ledger@ == self@.follows,
                keep == (|who: Seq<char>| feed::follows(self@, follower@, who)),
                found.deep_view() == names.take(i as int).filter(keep),
            decreases n - i,
        {
            let (who, ballot) = ledger.entry(i);
            let ghost before = found.deep_view();
            proof {
                order::lemma_filter_next(names, keep, i as int);
            }
            if ballot.holds(follower, 1) {
                found.push(who.clone());
                assert(found.deep_view() =~= before.push(who@));
            }
            i = i + 1;
        }
        proof {
            order::lemma_filter_none(names, keep);
            order::lemma_filtered(names, keep);
            assert(names.to_set().filter(keep) =~= followed_by(self@, follower@));
        }
        order::sorted(&found)
    }

    /// Followers of `followee`, each once, in ascending order.
    pub fn followers(&self, followee: &str) -> (found: Vec<String>)
        requires
            self.wf(),
        ensures
            found.deep_view().no_duplicates(),
            found.deep_view().to_set() == followers_of(self@, followee@),
            order::alphabetical(found.deep_view()),
    {
        let mut found: Vec<String> = Vec::new();
        let ghost marks = ballot::marks_on(self@.follows, followee@);
        let ghost keep = |v: Seq<char>| marks[v].value == 1;
        match self.follow_ledger().get(followee) {
            Some(ballot) => {
                let ghost names = ballot.order();
                proof {
                    ballot.lemma_wf();
                    order::lemma_filter_none(names, keep);
                    assert(found.deep_view() =~= Seq::empty());
                }
                let n: usize = ballot.len();
                let mut i: usize = 0;
                while i < n
                    invariant
                        i <= n,
                        n == names.len(),
                        names == ballot.order(),
                        ballot.wf(),
                        ballot@ == marks,
                        keep == (|v: Seq<char>| marks[v].value == 1),
                        found.deep_view() == names.take(i as int).filter(keep),
                    decreases n - i,
                {
                    let (who, mark) = ballot.entry(i);
                    let ghost before = found.deep_view();
                    proof {
                        order::lemma_filter_next(names, keep, i as int);
                    }
                    if mark.value == 1 {
                        found.push(who.clone());
                        assert(found.deep_view() =~= before.push(who@));
                    }
                    i = i + 1;
                }
                proof {
                    order::lemma_filter_none(names, keep);
                    order::lemma_filtered(names, keep);
                    assert(names.to_set().filter(keep) =~= followers_of(self@, followee@));
                }
            },
            None => {
                proof {
                    assert(found.deep_view() =~= Seq::empty());
                    assert(Seq::<Seq<char>>::empty().to_set() =~= followers_of(self@, followee@));
                }
            },
        }
        order::sorted(&found)
    }

    /// How many thread roots and how many comments a user authored.
    fn authored_counts(&self, node_id: &str) -> (counts: (u64, u64))
        requires
            self.wf(),
        ensures
            counts.0 == authored(self@, node_id@, true).len(),
            counts.1 == authored(self@, node_id@, false).len(),
    {
        let table = self.post_table();
        let ghost names = table.order();
        let ghost roots = |id: Seq<char>|
            self@.posts[id].author == node_id@ && self@.posts[id].post.is_root() == true;
        let ghost replies = |id: Seq<char>|
            self@.posts[id].author == node_id@ && self@.posts[id].post.is_root() == false;
        proof {
            table.lemma_order();
            order::lemma_filter_none(names, roots);
            order::lemma_filter_none(names, replies);
        }
        let mut posts: u64 = 0;
        let mut comments: u64 = 0;
        let n: usize = table.len();
        let mut i: usize = 0;
        while i < n
            invariant
                i <= n,
                n == names.len(),
                n <= MAX_RECORDS,
                names == table.order(),
                table.wf(),
                roots == (|id: Seq<char>|
                    self@.posts[id].author == node_id@ && self@.posts[id].post.is_root() == true),
                replies == (|id: Seq<char>|
                    self@.posts[id].author == node_id@ && self@.posts[id].post.is_root() == false),
                forall|k: Seq<char>| #[trigger] table@.contains_key(k) ==> table@[k]@ == self@.posts[k],
                posts == names.take(i as int).filter(roots).len(),
                comments == names.take(i as int).filter(replies).len(),
                posts <= i,
                comments <= i,
            decreases n - i,
        {
            let sp = table.val_at(i);
            proof {
                order::lemma_filter_next(names, roots, i as int);
                order::lemma_filter_next(names, replies, i as int);
            }
            if text::same_text(&sp.author, node_id) {
                if sp.post.is_root() {
                    posts = posts + 1;
                } else {
                    comments = comments + 1;
                }
            }
            i = i + 1;
        }
        proof {
            order::lemma_filter_none(names, roots);
            order::lemma_filter_none(names, replies);
            order::lemma_filtered(names, roots);
            order::lemma_filtered(names, replies);
            names.filter(roots).unique_seq_to_set();
            names.filter(replies).unique_seq_to_set();
            assert(names.to_set().filter(roots) =~= authored(self@, node_id@, true));
            assert(names.to_set().filter(replies) =~= authored(self@, node_id@, false));
        }
        (posts, comments)
    }

    /// Votes received on a user's thread roots and comments: (ups, downs) of each.
    fn votes_received(&self, node_id: &str) -> (votes: (u64, u64, u64, u64))
        requires
            self.wf(),
        ensures
            votes.0 == total_ups(self@, authored(self@, node_id@, true)),
            votes.1 == total_downs(self@, authored(self@, node_id@, true)),
            votes.2 == total_ups(self@, authored(self@, node_id@, false)),
            votes.3 == total_downs(self@, authored(self@, node_id@, false)),
            votes.0 + votes.1 + votes.2 + votes.3 <= MAX_RECORDS,
    {
        let ledger = self.vote_ledger();
        let ghost names = ledger.order();
        let ghost roots = authored(self@, node_id@, true);
        let ghost replies = authored(self@, node_id@, false);
        let ghost ups = |id: Seq<char>| ups_on(self@, id);
        let ghost downs = |id: Seq<char>| downs_on(self@, id);
        let mut pu: u64 = 0;
        let mut pd: u64 = 0;
        let mut cu: u64 = 0;
        let mut cd: u64 = 0;
        let n: usize = ledger.len();
        let mut i: usize = 0;
        proof {
            ledger.lemma_wf();
            assert(names.take(0).to_set() =~= Set::empty());
            assert(names.take(0).to_set().intersect(roots) =~= Set::empty());
            assert(names.take(0).to_set().intersect(replies) =~= Set::empty());
        }
        while i < n
            invariant
                i <= n,
                n == names.len(),
                names == ledger.order(),
                names.no_duplicates(),
                ledger.wf(),
                ledger@ == self@.votes,
                ledger.total() == ballot::marks_in(self@.votes, names, n as int),
                ledger.total() <= MAX_RECORDS,
                self.wf(),
                roots == authored(self@, node_id@, true),
                replies == authored(self@, node_id@, false),
                ups == (|id: Seq<char>| ups_on(self@, id)),
                downs == (|id: Seq<char>| downs_on(self@, id)),
                names.take(i as int).to_set().finite(),
                pu == sums::sum_over(names.take(i as int).to_set().intersect(roots), ups),
                pd == sums::sum_over(names.take(i as int).to_set().intersect(roots), downs),
                cu == sums::sum_over(names.take(i as int).to_set().intersect(replies), ups),
                cd == sums::sum_over(names.take(i as int).to_set().intersect(replies), downs),
                pu + pd + cu + cd <= ballot::marks_in(self@.votes, names, i as int),
            decreases n - i,
        {
            let (id, ballot) = ledger.entry(i);
            let u: u64 = ballot.ups();
            let d: u64 = ballot.downs();
            let ghost before = names.take(i as int).to_set();
            let ghost after = names.take(i + 1).to_set();
            proof {
                ballot.lemma_wf();
                ballot::lemma_count_bound(ballot@);
                ballot::lemma_marks_in_monotone(self@.votes, names, i + 1, n as int);
                assert(names.take(i + 1) =~= names.take(i as int).push(id@));
                assert(!before.contains(id@)) by {
                    if names.take(i as int).contains(id@) {
                        let j = choose|j: int| 0 <= j < i && names.take(i as int)[j] == id@;
                        assert(names[j] == names[i as int]);
                    }
                }
                assert(after =~= before.insert(id@)) by {
                    assert forall|x: Seq<char>| after.contains(x) <==> before.insert(id@).contains(x) by {
                        let longer = names.take(i + 1);
                        let shorter = names.take(i as int);
                        if longer.contains(x) {
                            let j = choose|j: int| 0 <= j < longer.len() && longer[j] == x;
                            if j < i {
                                assert(shorter[j] == x);
                            }
                        }
                        if shorter.contains(x) {
                            let j = choose|j: int| 0 <= j < shorter.len() && shorter[j] == x;
                            assert(longer[j] == x);
                        }
                        assert(longer[i as int] == id@);
                    }
                }
                if roots.contains(id@) {
                    assert(after.intersect(roots) =~= before.intersect(roots).insert(id@));
                    sums::lemma_sum_insert(before.intersect(roots), ups, id@);
                    sums::lemma_sum_insert(before.intersect(roots), downs, id@);
                } else {
                    assert(after.intersect(roots) =~= before.intersect(roots));
                }
                if replies.contains(id@) {
                    assert(after.intersect(replies) =~= before.intersect(replies).insert(id@));
                    sums::lemma_sum_insert(before.intersect(replies), ups, id@);
                    sums::lemma_sum_insert(before.intersect(replies), downs, id@);
                } else {
                    assert(after.intersect(replies) =~= before.intersect(replies));
                }
            }
            if let Some(sp) = self.post_table().get(id) {
                if text::same_text(&sp.author, node_id) {
                    if sp.post.is_root() {
                        pu = pu + u;
                        pd = pd + d;
                    } else {
                        cu = cu + u;
                        cd = cd + d;
                    }
                }
            }
            i = i + 1;
        }
        proof {
            assert(names.take(n as int) =~= names);
            self.lemma_finite();
            let voted = self@.votes.dom();
            ballot::lemma_count_empty(1);
            ballot::lemma_count_empty(-1);
            assert forall|id: Seq<char>| roots.contains(id) && !voted.intersect(roots).contains(id) implies #[trigger] ups(
                id,
            ) == 0 by {}
            assert forall|id: Seq<char>|
                roots.contains(id) && !voted.intersect(roots).contains(id) implies #[trigger] downs(id) == 0 by {}
            assert forall|id: Seq<char>|
                replies.contains(id) && !voted.intersect(replies).contains(id) implies #[trigger] ups(id) == 0 by {}
            assert forall|id: Seq<char>|
                replies.contains(id) && !voted.intersect(replies).contains(id) implies #[trigger] downs(id) == 0 by {}
            sums::lemma_sum_nonzero(roots, voted.intersect(roots), ups);
            sums::lemma_sum_nonzero(roots, voted.intersect(roots), downs);
            sums::lemma_sum_nonzero(replies, voted.intersect(replies), ups);
            sums::lemma_sum_nonzero(replies, voted.intersect(replies), downs);
        }
        (pu, pd, cu, cd)
    }

    /// The social-karma aggregate of a user, every vote weighing one.
    pub fn social(&self, node_id: &str) -> (k: SocialKarma)
        requires
            self.wf(),
        ensures
            social_is(self@, node_id@, k),
            -MAX_RECORDS <= k.net() <= MAX_RECORDS,
    {
        let (posts, comments) = self.authored_counts(node_id);
        let (pu, pd, cu, cd) = self.votes_received(node_id);
        let (followers, _) = self.follow_ledger().tally(node_id);
        let post_score: i64 = pu as i64 - pd as i64;
        let comment_score: i64 = cu as i64 - cd as i64;
        SocialKarma {
            posts,
            comments,
            post_score,
            comment_score,
            upvotes: pu + cu,
            downvotes: pd + cd,
            followers,
            effective_score: Double::of_whole(post_score + comment_score),
        }
    }
}

/// A user's net score over all posts and comments.
pub open spec fn net_karma(m: StateModel, user: Seq<char>) -> int {
    total_ups(m, authored(m, user, true)) - total_downs(m, authored(m, user, true)) + total_ups(
        m,
        authored(m, user, false),
    ) - total_downs(m, authored(m, user, false))
}

/// One voter's say on a ban, with the karma that it is weighed by.
pub struct BanBallot {
    pub voter: String,
    pub support: bool,
    pub karma: i64,
}

/// The ballots hold every ban vote on `target` in `board` once, each with its voter's karma.
pub open spec fn weighs(m: StateModel, board: Seq<char>, target: Seq<char>, ballots: Seq<BanBallot>) -> bool {
    let marks = governance::ban_marks(m, board, target);
    let voters = ballots.map_values(|b: BanBallot| b.voter@);
    &&& voters.no_duplicates()
    &&& voters.to_set() == marks.dom()
    &&& order::alphabetical(voters)
    &&& forall|i: int|
        0 <= i < ballots.len() ==> (#[trigger] ballots[i]).support == ballot::holds(marks, ballots[i].voter@, 1)
            && ballots[i].karma == net_karma(m, ballots[i].voter@)
}

impl State {
    /// The ban votes on a user in a board, each with the karma of its voter.
    pub fn ban_ballots(&self, board: &str, target: &str) -> (ballots: Vec<BanBallot>)
        requires
            self.wf(),
        ensures
            weighs(self@, board@, target@, ballots@),
    {
        let votes = self.ban_votes_raw(board, target);
        let ghost marks = governance::ban_marks(self@, board@, target@);
        let mut ballots: Vec<BanBallot> = Vec::new();
        let mut i: usize = 0;
        while i < votes.len()
            invariant
                self.wf(),
                i <= votes@.len(),
                ballots@.len() == i,
                marks == governance::ban_marks(self@, board@, target@),
                forall|j: int|
                    0 <= j < votes@.len() ==> (#[trigger] votes@[j]).1 == ballot::holds(marks, votes@[j].0@, 1),
                forall|j: int|
                    0 <= j < i ==> (#[trigger] ballots@[j]).voter@ == votes@[j].0@ && ballots@[j].support == ballot::holds(
                        marks,
                        votes@[j].0@,
                        1,
                    ) && ballots@[j].karma == net_karma(self@, votes@[j].0@),
            decreases votes.len() - i,
        {
            let voter = votes[i].0.clone();
            let karma: i64 = self.social(&voter).karma();
            ballots.push(BanBallot { voter, support: votes[i].1, karma });
            i = i + 1;
        }
        proof {
            assert(ballots@.map_values(|b: BanBallot| b.voter@) =~= votes@.map_values(|v: (String, bool)| v.0@));
        }
        ballots
    }
}

} // verus!

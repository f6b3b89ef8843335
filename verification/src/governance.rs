//! Community governance: boards, ban votes and policy proposals. There are no moderators.
use crate::ballot;
use crate::ballot::Marks;
use crate::double;
use crate::model;
use crate::model::BoardPolicy;
use crate::order;
use crate::readmodel;
use crate::readmodel::StateModel;
use crate::state::{State, MAX_RECORDS};
use crate::text;
use vstd::prelude::*;

verus! {

/// The community parameters of a board; defaults where it was never created.
pub open spec fn policy_of(m: StateModel, board: Seq<char>) -> BoardPolicy {
    if m.boards.contains_key(board) {
        m.boards[board].policy
    } else {
        model::default_policy()
    }
}

/// The ban votes on `target` in `board`, by voter.
pub open spec fn ban_marks(m: StateModel, board: Seq<char>, target: Seq<char>) -> Marks {
    ballot::marks_on(readmodel::ballots_at(m.ban_votes, board), target)
}

/// The raw tally bans: at least `ban_quorum` voters, and at least the fraction `ban_support` of them for
/// the ban.
pub open spec fn tally_bans(policy: BoardPolicy, support: nat, oppose: nat) -> bool {
    let total = support + oppose;
    &&& total > 0
    &&& total >= policy.ban_quorum
    &&& double::reaches(support, policy.ban_support, total)
}

/// The community has banned `target` from `board`, one person one vote.
pub open spec fn banned_raw(m: StateModel, board: Seq<char>, target: Seq<char>) -> bool {
    tally_bans(
        policy_of(m, board),
        ballot::count_of(ban_marks(m, board, target), 1),
        ballot::count_of(ban_marks(m, board, target), -1),
    )
}

/// Does a raw tally of ban votes ban under `policy`?
pub fn bans(policy: BoardPolicy, support: u64, oppose: u64) -> (banned: bool)
    requires
        support + oppose <= MAX_RECORDS,
    ensures
        banned == tally_bans(policy, support as nat, oppose as nat),
{
    let total: u64 = support + oppose;
    if total == 0 {
        return false;
    }
    total >= policy.ban_quorum as u64 && double::reaches_fraction(support, policy.ban_support, total)
}

/// A board namespace view.
pub struct BoardView {
    pub board: String,
    pub title: String,
    pub description: String,
    pub policy: BoardPolicy,
    pub created_ms: u64,
}

/// What a [`BoardView`] says.
#[verifier::ext_equal]
pub struct BoardViewModel {
    pub board: Seq<char>,
    pub title: Seq<char>,
    pub description: Seq<char>,
    pub policy: BoardPolicy,
    pub created_ms: u64,
}

impl View for BoardView {
    type V = BoardViewModel;

    open spec fn view(&self) -> BoardViewModel {
        BoardViewModel {
            board: self.board@,
            title: self.title@,
            description: self.description@,
            policy: self.policy,
            created_ms: self.created_ms,
        }
    }
}

/// The view of a board; blank with default parameters where it was never created.
pub open spec fn board_view(m: StateModel, board: Seq<char>) -> BoardViewModel {
    if m.boards.contains_key(board) {
        let b = m.boards[board];
        BoardViewModel {
            board,
            title: b.title,
            description: b.description,
            policy: b.policy,
            created_ms: b.created_ms,
        }
    } else {
        BoardViewModel {
            board,
            title: Seq::empty(),
            description: Seq::empty(),
            policy: model::default_policy(),
            created_ms: 0,
        }
    }
}

/// The community ban standing of a user in a board.
pub struct BanStanding {
    pub board: String,
    pub target: String,
    /// Distinct voters supporting a ban.
    pub support: u64,
    /// Distinct voters opposing it.
    pub oppose: u64,
    /// The unweighted tally clears the board's support fraction and quorum.
    pub banned_raw: bool,
}

/// A community policy proposal with its current vote standing.
pub struct ProposalView {
    pub id: String,
    pub author: String,
    pub created_ms: u64,
    pub board: Option<String>,
    pub title: String,
    pub body: String,
    pub favor: u64,
    pub against: u64,
}

/// What a [`ProposalView`] says.
#[verifier::ext_equal]
pub struct ProposalViewModel {
    pub id: Seq<char>,
    pub author: Seq<char>,
    pub created_ms: u64,
    pub board: Option<Seq<char>>,
    pub title: Seq<char>,
    pub body: Seq<char>,
    pub favor: nat,
    pub against: nat,
}

impl View for ProposalView {
    type V = ProposalViewModel;

    open spec fn view(&self) -> ProposalViewModel {
        ProposalViewModel {
            id: self.id@,
            author: self.author@,
            created_ms: self.created_ms,
            board: self.board.deep_view(),
            title: self.title@,
            body: self.body@,
            favor: self.favor as nat,
            against: self.against as nat,
        }
    }
}

/// The view of the proposal `id`.
pub open spec fn proposal_view(m: StateModel, id: Seq<char>) -> ProposalViewModel {
    let p = m.proposals[id];
    let marks = ballot::marks_on(m.policy_votes, id);
    ProposalViewModel {
        id,
        author: p.author,
        created_ms: p.created_ms,
        board: p.proposal.board,
        title: p.proposal.title,
        body: p.proposal.body,
        favor: ballot::count_of(marks, 1),
        against: ballot::count_of(marks, -1),
    }
}

/// The proposals in scope: all of them, or those of one board.
pub open spec fn proposals_in(m: StateModel, board: Option<Seq<char>>) -> Set<Seq<char>> {
    m.proposals.dom().filter(|id: Seq<char>| board is None || m.proposals[id].proposal.board == board)
}

/// `views` shows every created board once, newest first.
pub open spec fn lists_boards(m: StateModel, views: Seq<BoardView>) -> bool {
    &&& forall|i: int| 0 <= i < views.len() ==> (#[trigger] views[i])@ == board_view(m, views[i].board@)
    &&& views.map_values(|v: BoardView| v.board@).no_duplicates()
    &&& views.map_values(|v: BoardView| v.board@).to_set() == m.boards.dom()
    &&& order::newest_first(views.map_values(|v: BoardView| (v.created_ms, v.board@)))
}

/// `views` shows every proposal in scope once, newest first.
pub open spec fn lists_proposals(m: StateModel, board: Option<Seq<char>>, views: Seq<ProposalView>) -> bool {
    &&& forall|i: int| 0 <= i < views.len() ==> (#[trigger] views[i])@ == proposal_view(m, views[i].id@)
    &&& views.map_values(|v: ProposalView| v.id@).no_duplicates()
    &&& views.map_values(|v: ProposalView| v.id@).to_set() == proposals_in(m, board)
    &&& order::newest_first(views.map_values(|v: ProposalView| (v.created_ms, v.id@)))
}

/// The raw standing of `target` in `board`.
pub open spec fn standing_is(m: StateModel, board: Seq<char>, target: Seq<char>, standing: BanStanding) -> bool {
    &&& standing.board@ == board
    &&& standing.target@ == target
    &&& standing.support == ballot::count_of(ban_marks(m, board, target), 1)
    &&& standing.oppose == ballot::count_of(ban_marks(m, board, target), -1)
    &&& standing.banned_raw == banned_raw(m, board, target)
}

impl State {
    /// The community parameters of a board (defaults if the board was never explicitly created).
    pub fn board_policy(&self, board: &str) -> (policy: BoardPolicy)
        requires
            self.wf(),
        ensures
            policy == policy_of(self@, board@),
    {
        match self.board_table().get(board) {
            Some(b) => b.policy,
            None => BoardPolicy::default(),
        }
    }

    /// A board's namespace metadata and community parameters.
    pub fn board(&self, board: &str) -> (view: BoardView)
        requires
            self.wf(),
        ensures
            view@ == board_view(self@, board@),
    {
        match self.board_table().get(board) {
            Some(b) => BoardView {
                board: board.to_owned(),
                title: b.title.clone(),
                description: b.description.clone(),
                policy: b.policy,
                created_ms: b.created_ms,
            },
            None => BoardView {
                board: board.to_owned(),
                title: String::new(),
                description: String::new(),
                policy: BoardPolicy::default(),
                created_ms: 0,
            },
        }
    }

    /// Every explicitly created board, newest first.
    pub fn boards(&self) -> (views: Vec<BoardView>)
        requires
            self.wf(),
        ensures
            lists_boards(self@, views@),
    {
        let table = self.board_table();
        let ghost names = table.order();
        proof {
            table.lemma_order();
        }
        let mut times: Vec<u64> = Vec::new();
        let mut ids: Vec<String> = Vec::new();
        let n: usize = table.len();
        let mut i: usize = 0;
        while i < n
            invariant
                i <= n,
                n == names.len(),
                names == table.order(),
                table.wf(),
                times@.len() == i,
                forall|j: int| 0 <= j < i ==> #[trigger] times@[j] == table@[names[j]].created_ms,
                ids@.len() == i,
                forall|j: int| 0 <= j < i ==> (#[trigger] ids@[j])@ == names[j],
            decreases n - i,
        {
            times.push(table.val_at(i).created_ms);
            ids.push(table.key_at(i).clone());
            i = i + 1;
        }
        let sorted = order::by_time(&times, &ids);
        let ghost indices = sorted@.map_values(|i: usize| i as int);
        let mut views: Vec<BoardView> = Vec::new();
        let mut i: usize = 0;
        while i < n
            invariant
                i <= n,
                n == names.len(),
                names == table.order(),
                table.wf(),
                self.wf(),
                sorted@.len() == n,
                indices == sorted@.map_values(|i: usize| i as int),
                order::lists_all(indices, n as int),
                views@.len() == i,
                forall|j: int| 0 <= j < i ==> (#[trigger] views@[j])@ == board_view(self@, names[indices[j]]),
            decreases n - i,
        {
            let at: usize = sorted[i];
            assert(at as int == indices[i as int]);
            views.push(self.board(table.key_at(at)));
            i = i + 1;
        }
        proof {
            order::lemma_arranged(names, indices);
            assert(views@.map_values(|v: BoardView| v.board@) =~= order::arranged(names, indices));
            assert forall|j: int| 0 <= j < n implies table@.contains_key(names[#[trigger] indices[j]]) by {
                assert(names.contains(names[indices[j]]));
            }
            assert(views@.map_values(|v: BoardView| (v.created_ms, v.board@)) =~= order::arranged(
                order::stamps_of(times@, ids@),
                indices,
            ));
        }
        views
    }

    /// The raw (unweighted) community ban standing of a user in a board.
    pub fn ban_standing(&self, board: &str, target: &str) -> (standing: BanStanding)
        requires
            self.wf(),
        ensures
            standing_is(self@, board@, target@, standing),
            standing.support + standing.oppose <= MAX_RECORDS,
    {
        let tally: (u64, u64) = match self.ban_table().get(board) {
            Some(ledger) => ledger.tally(target),
            None => {
                proof {
                    ballot::lemma_count_empty(1);
                    ballot::lemma_count_empty(-1);
                }
                (0, 0)
            },
        };
        BanStanding {
            board: board.to_owned(),
            target: target.to_owned(),
            support: tally.0,
            oppose: tally.1,
            banned_raw: bans(self.board_policy(board), tally.0, tally.1),
        }
    }

    /// Is a user community-banned in a board by the raw (one-person-one-vote) tally?
    pub fn is_banned_raw(&self, board: &str, target: &str) -> (banned: bool)
        requires
            self.wf(),
        ensures
            banned == banned_raw(self@, board@, target@),
    {
        let tally: (u64, u64) = match self.ban_table().get(board) {
            Some(ledger) => ledger.tally(target),
            None => {
                proof {
                    ballot::lemma_count_empty(1);
                    ballot::lemma_count_empty(-1);
                }
                (0, 0)
            },
        };
        bans(self.board_policy(board), tally.0, tally.1)
    }

    /// Raw ban votes on a user in a board: each voter once, in ascending order.
    pub fn ban_votes_raw(&self, board: &str, target: &str) -> (votes: Vec<(String, bool)>)
        requires
            self.wf(),
        ensures
            votes@.map_values(|v: (String, bool)| v.0@).no_duplicates(),
            votes@.map_values(|v: (String, bool)| v.0@).to_set() == ban_marks(self@, board@, target@).dom(),
            order::alphabetical(votes@.map_values(|v: (String, bool)| v.0@)),
            forall|i: int|
                0 <= i < votes@.len() ==> (#[trigger] votes@[i]).1 == ballot::holds(
                    ban_marks(self@, board@, target@),
                    votes@[i].0@,
                    1,
                ),
    {
        let mut votes: Vec<(String, bool)> = Vec::new();
        let ghost marks = ban_marks(self@, board@, target@);
        if let Some(ledger) = self.ban_table().get(board) {
            if let Some(ballot) = ledger.get(target) {
                proof {
                    ballot.lemma_wf();
                }
                let mut voters: Vec<String> = Vec::new();
                let n: usize = ballot.len();
                let mut i: usize = 0;
                while i < n
                    invariant
                        i <= n,
                        n == ballot.order().len(),
                        ballot.wf(),
                        voters.deep_view() == ballot.order().take(i as int),
                    decreases n - i,
                {
                    let ghost before = voters.deep_view();
                    voters.push(ballot.entry(i).0.clone());
                    assert(voters.deep_view() =~= before.push(ballot.order()[i as int]));
                    assert(ballot.order().take(i + 1) =~= before.push(ballot.order()[i as int]));
                    i = i + 1;
                }
                assert(voters.deep_view() =~= ballot.order());
                let voters = order::sorted(&voters);
                let mut i: usize = 0;
                while i < voters.len()
                    invariant
                        i <= voters@.len(),
                        ballot.wf(),
                        ballot@ == marks,
                        votes@.len() == i,
                        forall|j: int|
                            0 <= j < i ==> (#[trigger] votes@[j]).0@ == voters@[j]@ && votes@[j].1 == ballot::holds(
                                marks,
                                votes@[j].0@,
                                1,
                            ),
                    decreases voters.len() - i,
                {
                    votes.push((voters[i].clone(), ballot.holds(&voters[i], 1)));
                    i = i + 1;
                }
                assert(votes@.map_values(|v: (String, bool)| v.0@) =~= voters.deep_view());
                return votes;
            }
        }
        assert(votes@.map_values(|v: (String, bool)| v.0@) =~= Seq::empty());
        assert(Seq::<Seq<char>>::empty().to_set() =~= marks.dom());
        votes
    }

    /// A policy proposal with its current vote standing.
    pub fn proposal(&self, id: &str) -> (view: Option<ProposalView>)
        requires
            self.wf(),
        ensures
            match view {
                Some(v) => self@.proposals.contains_key(id@) && v@ == proposal_view(self@, id@),
                None => !self@.proposals.contains_key(id@),
            },
    {
        match self.proposal_table().get(id) {
            Some(p) => {
                let tally = self.policy_ledger().tally(id);
                Some(
                    ProposalView {
                        id: id.to_owned(),
                        author: p.author.clone(),
                        created_ms: p.created_ms,
                        board: p.proposal.board.clone(),
                        title: p.proposal.title.clone(),
                        body: p.proposal.body.clone(),
                        favor: tally.0,
                        against: tally.1,
                    },
                )
            },
            None => None,
        }
    }

    /// All policy proposals, or those of one board, newest first.
    pub fn proposals(&self, board: Option<&str>) -> (views: Vec<ProposalView>)
        requires
            self.wf(),
        ensures
            lists_proposals(self@, board.deep_view(), views@),
    {
        let table = self.proposal_table();
        let ghost names = table.order();
        let ghost scope: Option<Seq<char>> = board.deep_view();
        let ghost keep = |id: Seq<char>| scope is None || self@.proposals[id].proposal.board == scope;
        proof {
            table.lemma_order();
            order::lemma_filter_none(names, keep);
        }
        let mut picked: Vec<usize> = Vec::new();
        let mut times: Vec<u64> = Vec::new();
        let mut ids: Vec<String> = Vec::new();
        let n: usize = table.len();
        let mut i: usize = 0;
        while i < n
            invariant
                i <= n,
                n == names.len(),
                names == table.order(),
                table.wf(),
                scope == board.deep_view(),
                keep == (|id: Seq<char>| scope is None || self@.proposals[id].proposal.board == scope),
                forall|k: Seq<char>| #[trigger] table@.contains_key(k) ==> table@[k]@ == self@.proposals[k],
                times@.len() == picked@.len(),
                ids@.len() == picked@.len(),
                forall|j: int| 0 <= j < picked@.len() ==> (#[trigger] ids@[j])@ == names[picked@[j] as int],
                forall|j: int| 0 <= j < picked@.len() ==> (#[trigger] picked@[j]) < n,
                picked@.map_values(|p: usize| names[p as int]) == names.take(i as int).filter(keep),
                forall|j: int|
                    0 <= j < picked@.len() ==> #[trigger] times@[j] == self@.proposals[names[picked@[j] as int]].created_ms,
            decreases n - i,
        {
            let p = table.val_at(i);
            let in_scope: bool = match board {
                None => true,
                Some(b) => match &p.proposal.board {
                    Some(pb) => text::same_text(pb, b),
                    None => false,
                },
            };
            let ghost before = picked@;
            proof {
                order::lemma_filter_next(names, keep, i as int);
                assert(in_scope == keep(names[i as int]));
            }
            if in_scope {
                picked.push(i);
                times.push(p.created_ms);
                ids.push(table.key_at(i).clone());
                proof {
                    assert(picked@.map_values(|p: usize| names[p as int]) =~= before.map_values(
                        |p: usize| names[p as int],
                    ).push(names[i as int]));
                }
            }
            i = i + 1;
        }
        let ghost chosen = names.filter(keep);
        let sorted = order::by_time(&times, &ids);
        let ghost indices = sorted@.map_values(|i: usize| i as int);
        proof {
            order::lemma_filtered(names, keep);
            assert(picked@.map_values(|p: usize| names[p as int]).len() == picked@.len());
            order::lemma_arranged(chosen, indices);
        }
        let mut views: Vec<ProposalView> = Vec::new();
        let mut i: usize = 0;
        while i < sorted.len()
            invariant
                i <= sorted@.len(),
                n == names.len(),
                names == table.order(),
                table.wf(),
                self.wf(),
                table@.dom() == self@.proposals.dom(),
                sorted@.len() == picked@.len(),
                indices == sorted@.map_values(|i: usize| i as int),
                order::lists_all(indices, sorted@.len() as int),
                forall|j: int| 0 <= j < picked@.len() ==> (#[trigger] picked@[j]) < n,
                chosen == picked@.map_values(|p: usize| names[p as int]),
                views@.len() == i,
                forall|j: int| 0 <= j < i ==> (#[trigger] views@[j])@ == proposal_view(self@, chosen[indices[j]]),
            decreases sorted.len() - i,
        {
            let at: usize = sorted[i];
            assert(at as int == indices[i as int]);
            let slot: usize = picked[at];
            assert(chosen[at as int] == names[slot as int]);
            if let Some(view) = self.proposal(table.key_at(slot)) {
                views.push(view);
            }
            i = i + 1;
        }
        proof {
            assert(views@.map_values(|v: ProposalView| v.id@) =~= order::arranged(chosen, indices));
            assert(names.to_set().filter(keep) =~= proposals_in(self@, scope));
            let stamps = order::stamps_of(times@, ids@);
            let shown = views@.map_values(|v: ProposalView| (v.created_ms, v.id@));
            assert forall|j: int| 0 <= j < views@.len() implies shown[j] == order::arranged(stamps, indices)[j] by {
                assert(views@[j]@ == proposal_view(self@, chosen[indices[j]]));
                assert(chosen[indices[j]] == names[picked@[indices[j]] as int]);
                assert(times@[indices[j]] == self@.proposals[names[picked@[indices[j]] as int]].created_ms);
                assert(ids@[indices[j]]@ == names[picked@[indices[j]] as int]);
            }
            assert(shown =~= order::arranged(stamps, indices));
        }
        views
    }
}

/// A board that nobody created is blank and open: six hours of grace for a new post, a ban only from ten votes
/// on, and no trust asked for; one that was created is shown as it was created.
pub proof fn law_boards_start_blank_and_open(m: StateModel, board: Seq<char>)
    ensures
        board_view(m, board).board == board,
        board_view(m, board).policy == policy_of(m, board),
        !m.boards.dom().contains(board) ==> {
            &&& board_view(m, board).title.len() == 0
            &&& board_view(m, board).description.len() == 0
            &&& board_view(m, board).created_ms == 0
            &&& policy_of(m, board).grace_secs == 6 * 60 * 60
            &&& policy_of(m, board).ban_quorum == 10
            &&& policy_of(m, board).min_trust_to_post.bits == 0
            &&& policy_of(m, board).min_trust_to_vote.bits == 0
        },
        m.boards.dom().contains(board) ==> {
            &&& board_view(m, board).title == m.boards[board].title
            &&& board_view(m, board).description == m.boards[board].description
            &&& board_view(m, board).created_ms == m.boards[board].created_ms
            &&& policy_of(m, board) == m.boards[board].policy
        },
{
}

} // verus!

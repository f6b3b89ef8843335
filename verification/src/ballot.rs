//! Last-write-wins ballots: each voter's latest mark on a subject, with running tallies.
use crate::stamp;
use crate::table::Table;
use vstd::prelude::*;

verus! {

/// What one voter last said: in favour (`1`), against (`-1`) or withdrawn (`0`), when, and in which
/// record.
#[verifier::ext_equal]
pub struct Mark {
    pub value: i8,
    pub at: u64,
    pub id: Seq<char>,
}

/// A mark as stored.
pub struct StoredMark {
    pub value: i8,
    pub at: u64,
    pub id: String,
}

impl View for StoredMark {
    type V = Mark;

    open spec fn view(&self) -> Mark {
        Mark { value: self.value, at: self.at, id: self.id@ }
    }
}

/// The marks on one subject, by voter.
pub type Marks = Map<Seq<char>, Mark>;

/// A mark takes the place of the one held only if it is stamped later.
pub open spec fn mark_step(marks: Marks, voter: Seq<char>, mark: Mark) -> Marks {
    if marks.contains_key(voter) && !stamp::before(marks[voter].at, marks[voter].id, mark.at, mark.id) {
        marks
    } else {
        marks.insert(voter, mark)
    }
}

/// The voters whose mark is `value`.
pub open spec fn voters_of(marks: Marks, value: int) -> Set<Seq<char>> {
    marks.dom().filter(|v: Seq<char>| marks[v].value == value)
}

/// How many voters' mark is `value`.
pub open spec fn count_of(marks: Marks, value: int) -> nat {
    voters_of(marks, value).len()
}

/// Does `voter` hold the mark `value`?
pub open spec fn holds(marks: Marks, voter: Seq<char>, value: int) -> bool {
    marks.contains_key(voter) && marks[voter].value == value
}

/// Setting one mark moves one voter between the tallies.
pub proof fn lemma_count_insert(marks: Marks, voter: Seq<char>, mark: Mark, value: int)
    requires
        marks.dom().finite(),
    ensures
        count_of(marks.insert(voter, mark), value) == count_of(marks, value) - (if holds(marks, voter, value) {
            1int
        } else {
            0
        }) + (if mark.value == value {
            1int
        } else {
            0
        }),
{
    let before = voters_of(marks, value);
    let after = voters_of(marks.insert(voter, mark), value);
    assert(before.finite());
    if mark.value == value {
        assert(after =~= before.insert(voter));
    } else {
        assert(after =~= before.remove(voter));
    }
}

/// The two tallies count different voters.
pub proof fn lemma_count_bound(marks: Marks)
    requires
        marks.dom().finite(),
    ensures
        count_of(marks, 1) + count_of(marks, -1) <= marks.dom().len(),
{
    let ups = voters_of(marks, 1);
    let downs = voters_of(marks, -1);
    assert(ups.finite() && downs.finite());
    vstd::set_lib::lemma_set_disjoint_lens(ups, downs);
    vstd::set_lib::lemma_len_subset(ups + downs, marks.dom());
}

/// No marks, no tally.
pub proof fn lemma_count_empty(value: int)
    ensures
        count_of(Map::empty(), value) == 0,
{
    assert(voters_of(Map::empty(), value) =~= Set::empty());
}

/// A ballot box for one subject.
pub struct Ballot {
    marks: Table<StoredMark>,
    ups: u64,
    downs: u64,
}

impl View for Ballot {
    type V = Marks;

    closed spec fn view(&self) -> Marks {
        self.marks@.map_values(|m: StoredMark| m@)
    }
}

impl Ballot {
    /// The tallies are those of the marks.
    pub closed spec fn wf(&self) -> bool {
        &&& self.marks.wf()
        &&& self.ups == count_of(self@, 1)
        &&& self.downs == count_of(self@, -1)
        &&& forall|v: Seq<char>| #[trigger] self@.contains_key(v) ==> -1 <= self@[v].value <= 1
    }

    /// The voters in the order in which they first came.
    pub closed spec fn order(&self) -> Seq<Seq<char>> {
        self.marks.order()
    }

    /// What a ballot box guarantees of its marks.
    pub proof fn lemma_wf(&self)
        requires
            self.wf(),
        ensures
            self@.dom().finite(),
            self.order().no_duplicates(),
            self.order().to_set() == self@.dom(),
            self@.dom().len() == self.order().len(),
            self.order().len() <= usize::MAX,
            forall|v: Seq<char>| #[trigger] self@.contains_key(v) ==> -1 <= self@[v].value <= 1,
            forall|v: Seq<char>| self@.contains_key(v) <==> self.order().contains(v),
    {
        self.marks.lemma_order();
        assert(self@.dom() =~= self.marks@.dom());
    }

    /// An empty ballot box.
    pub fn new() -> (ballot: Self)
        ensures
            ballot.wf(),
            ballot@ == Map::<Seq<char>, Mark>::empty(),
    {
        proof {
            lemma_count_empty(1);
            lemma_count_empty(-1);
        }
        let ballot = Ballot { marks: Table::new(), ups: 0, downs: 0 };
        assert(ballot@ =~= Map::<Seq<char>, Mark>::empty());
        ballot
    }

    /// How many voters have a mark here, withdrawn ones among them.
    pub fn len(&self) -> (n: usize)
        requires
            self.wf(),
        ensures
            n == self@.dom().len(),
            n == self.order().len(),
    {
        assert(self@.dom() =~= self.marks@.dom());
        self.marks.len()
    }

    /// How many voters are in favour.
    pub fn ups(&self) -> (n: u64)
        requires
            self.wf(),
        ensures
            n == count_of(self@, 1),
    {
        self.ups
    }

    /// How many voters are against.
    pub fn downs(&self) -> (n: u64)
        requires
            self.wf(),
        ensures
            n == count_of(self@, -1),
    {
        self.downs
    }

    /// Does `voter` hold the mark `value`?
    pub fn holds(&self, voter: &str, value: i8) -> (yes: bool)
        requires
            self.wf(),
        ensures
            yes == holds(self@, voter@, value as int),
    {
        match self.marks.get(voter) {
            Some(m) => m.value == value,
            None => false,
        }
    }

    /// The voter who came `i`-th, with their mark.
    pub fn entry(&self, i: usize) -> (entry: (&String, &StoredMark))
        requires
            self.wf(),
            i < self.order().len(),
        ensures
            entry.0@ == self.order()[i as int],
            self@.contains_key(entry.0@),
            entry.1@ == self@[entry.0@],
    {
        (self.marks.key_at(i), self.marks.val_at(i))
    }

    /// Record `voter`'s mark.
    pub fn cast(&mut self, voter: &str, value: i8, at: u64, id: &str)
        requires
            old(self).wf(),
            -1 <= value <= 1,
        ensures
            final(self).wf(),
            final(self)@ == mark_step(old(self)@, voter@, Mark { value, at, id: id@ }),
    {
        let ghost mark = Mark { value, at, id: id@ };
        let mut held: i8 = 0;
        if let Some(m) = self.marks.get(voter) {
            if !stamp::precedes(m.at, &m.id, at, id) {
                return;
            }
            held = m.value;
        }
        let ghost before = self@;
        proof {
            self.lemma_wf();
            lemma_count_insert(before, voter@, mark, 1);
            lemma_count_insert(before, voter@, mark, -1);
            lemma_count_bound(before);
            lemma_count_bound(before.insert(voter@, mark));
        }
        if held == 1 {
            assert(voters_of(before, 1).contains(voter@));
            self.ups = self.ups - 1;
        } else if held == -1 {
            assert(voters_of(before, -1).contains(voter@));
            self.downs = self.downs - 1;
        }
        self.marks.insert(voter, StoredMark { value, at, id: id.to_owned() });
        proof {
            assert(self@ =~= before.insert(voter@, mark));
            self.marks.lemma_order();
            assert(self@.dom() =~= self.marks@.dom());
        }
        if value == 1 {
            self.ups = self.ups + 1;
        } else if value == -1 {
            self.downs = self.downs + 1;
        }
    }
}

/// Ballot boxes by subject.
pub struct Ledger {
    boxes: Table<Ballot>,
    total: u64,
}

/// The marks by subject, then by voter.
pub type Ballots = Map<Seq<char>, Marks>;

/// The marks on `subject`; none where nobody has voted.
pub open spec fn marks_on(ballots: Ballots, subject: Seq<char>) -> Marks {
    if ballots.contains_key(subject) {
        ballots[subject]
    } else {
        Map::empty()
    }
}

/// One voter's mark on one subject.
pub open spec fn ballots_step(ballots: Ballots, subject: Seq<char>, voter: Seq<char>, mark: Mark) -> Ballots {
    ballots.insert(subject, mark_step(marks_on(ballots, subject), voter, mark))
}

/// How many marks the first `n` subjects of `order` have in all.
pub open spec fn marks_in(ballots: Ballots, order: Seq<Seq<char>>, n: int) -> nat
    decreases n,
{
    if n <= 0 {
        0
    } else {
        marks_in(ballots, order, n - 1) + marks_on(ballots, order[n - 1]).dom().len()
    }
}

proof fn lemma_marks_in_same(a: Ballots, b: Ballots, order: Seq<Seq<char>>, longer: Seq<Seq<char>>, n: int)
    requires
        0 <= n <= order.len() <= longer.len(),
        forall|i: int| 0 <= i < n ==> longer[i] == order[i],
        forall|i: int| 0 <= i < n ==> marks_on(a, #[trigger] order[i]).dom().len() == marks_on(b, order[i]).dom().len(),
    ensures
        marks_in(a, order, n) == marks_in(b, longer, n),
    decreases n,
{
    if n > 0 {
        lemma_marks_in_same(a, b, order, longer, n - 1);
        assert(order[n - 1] == longer[n - 1]);
    }
}

/// Growing one subject's marks grows the sum by as much.
proof fn lemma_marks_in_update(a: Ballots, order: Seq<Seq<char>>, subject: Seq<char>, marks: Marks, n: int)
    requires
        0 <= n <= order.len(),
        order.no_duplicates(),
        a.contains_key(subject),
    ensures
        marks_in(a.insert(subject, marks), order, n) == marks_in(a, order, n) + (if order.take(n).contains(subject) {
            marks.dom().len() - a[subject].dom().len()
        } else {
            0
        }),
    decreases n,
{
    if n > 0 {
        lemma_marks_in_update(a, order, subject, marks, n - 1);
        let shorter = order.take(n - 1);
        let longer = order.take(n);
        assert(longer =~= shorter.push(order[n - 1]));
        if order[n - 1] == subject {
            assert(longer[n - 1] == subject);
            if shorter.contains(subject) {
                let i = choose|i: int| 0 <= i < n - 1 && shorter[i] == subject;
                assert(order[i] == order[n - 1]);
            }
        } else {
            assert(longer.contains(subject) <==> shorter.contains(subject)) by {
                if longer.contains(subject) {
                    let i = choose|i: int| 0 <= i < n && longer[i] == subject;
                    assert(shorter[i] == subject);
                }
                if shorter.contains(subject) {
                    let i = choose|i: int| 0 <= i < n - 1 && shorter[i] == subject;
                    assert(longer[i] == subject);
                }
            }
        }
    }
}

/// A longer prefix has at least as many marks.
pub proof fn lemma_marks_in_monotone(a: Ballots, order: Seq<Seq<char>>, m: int, n: int)
    requires
        0 <= m <= n,
    ensures
        marks_in(a, order, m) <= marks_in(a, order, n),
    decreases n,
{
    if m < n {
        lemma_marks_in_monotone(a, order, m, n - 1);
    }
}

impl View for Ledger {
    type V = Ballots;

    closed spec fn view(&self) -> Ballots {
        self.boxes@.map_values(|b: Ballot| b@)
    }
}

impl Ledger {
    /// Every box is sound, and `total` counts all marks.
    pub closed spec fn wf(&self) -> bool {
        &&& self.boxes.wf()
        &&& forall|s: Seq<char>| #[trigger] self.boxes@.contains_key(s) ==> self.boxes@[s].wf()
        &&& self.total == marks_in(self@, self.order(), self.order().len() as int)
    }

    /// The subjects in the order in which they first came.
    pub closed spec fn order(&self) -> Seq<Seq<char>> {
        self.boxes.order()
    }

    /// How many marks there are in all.
    pub closed spec fn total(&self) -> nat {
        self.total as nat
    }

    /// What a ledger guarantees of its marks.
    pub proof fn lemma_wf(&self)
        requires
            self.wf(),
        ensures
            self@.dom().finite(),
            self.order().no_duplicates(),
            self.order().to_set() == self@.dom(),
            self.order().len() <= usize::MAX,
            forall|s: Seq<char>| self@.contains_key(s) <==> self.order().contains(s),
            forall|s: Seq<char>| #[trigger] self@.contains_key(s) ==> self@[s].dom().finite(),
            forall|s: Seq<char>, v: Seq<char>|
                self@.contains_key(s) && #[trigger] self@[s].contains_key(v) ==> -1 <= self@[s][v].value <= 1,
            self.total() == marks_in(self@, self.order(), self.order().len() as int),
            forall|s: Seq<char>| (#[trigger] marks_on(self@, s)).dom().len() <= self.total(),
    {
        self.boxes.lemma_order();
        assert(self@.dom() =~= self.boxes@.dom());
        assert forall|s: Seq<char>| #[trigger] self@.contains_key(s) implies self@[s].dom().finite() by {
            self.boxes@[s].lemma_wf();
        }
        assert forall|s: Seq<char>, v: Seq<char>|
            self@.contains_key(s) && #[trigger] self@[s].contains_key(v) implies -1 <= self@[s][v].value <= 1 by {
            self.boxes@[s].lemma_wf();
        }
        assert forall|s: Seq<char>| (#[trigger] marks_on(self@, s)).dom().len() <= self.total() by {
            if self@.contains_key(s) {
                assert(self.order().contains(s));
                let i = choose|i: int| 0 <= i < self.order().len() && self.order()[i] == s;
                lemma_marks_in_monotone(self@, self.order(), i + 1, self.order().len() as int);
            }
        }
    }

    /// A ledger with no marks.
    pub fn new() -> (ledger: Self)
        ensures
            ledger.wf(),
            ledger@ == Map::<Seq<char>, Marks>::empty(),
            ledger.total() == 0,
    {
        let ledger = Ledger { boxes: Table::new(), total: 0 };
        assert(ledger@ =~= Map::<Seq<char>, Marks>::empty());
        ledger
    }

    /// How many subjects there are.
    pub fn len(&self) -> (n: usize)
        requires
            self.wf(),
        ensures
            n == self.order().len(),
    {
        self.boxes.len()
    }

    /// The subject that came `i`-th, with its ballot box.
    pub fn entry(&self, i: usize) -> (entry: (&String, &Ballot))
        requires
            self.wf(),
            i < self.order().len(),
        ensures
            entry.0@ == self.order()[i as int],
            self@.contains_key(entry.0@),
            entry.1@ == self@[entry.0@],
            entry.1.wf(),
    {
        (self.boxes.key_at(i), self.boxes.val_at(i))
    }

    /// The ballot box of `subject`.
    pub fn get(&self, subject: &str) -> (ballot: Option<&Ballot>)
        requires
            self.wf(),
        ensures
            match ballot {
                Some(b) => self@.contains_key(subject@) && b@ == self@[subject@] && b.wf(),
                None => !self@.contains_key(subject@),
            },
    {
        self.boxes.get(subject)
    }

    /// How many voters are in favour of `subject`, and how many against.
    pub fn tally(&self, subject: &str) -> (tally: (u64, u64))
        requires
            self.wf(),
        ensures
            tally.0 == count_of(marks_on(self@, subject@), 1),
            tally.1 == count_of(marks_on(self@, subject@), -1),
            tally.0 + tally.1 <= self.total(),
    {
        proof {
            lemma_count_empty(1);
            lemma_count_empty(-1);
            self.lemma_wf();
            assert(marks_on(self@, subject@).dom().finite());
            lemma_count_bound(marks_on(self@, subject@));
        }
        match self.get(subject) {
            Some(b) => (b.ups(), b.downs()),
            None => (0, 0),
        }
    }

    /// Record `voter`'s mark on `subject`.
    pub fn cast(&mut self, subject: &str, voter: &str, value: i8, at: u64, id: &str)
        requires
            old(self).wf(),
            -1 <= value <= 1,
            old(self).total() < u64::MAX,
        ensures
            final(self).wf(),
            final(self)@ == ballots_step(old(self)@, subject@, voter@, Mark { value, at, id: id@ }),
            old(self).total() <= final(self).total() <= old(self).total() + 1,
    {
        let ghost mark = Mark { value, at, id: id@ };
        let ghost start = *self;
        proof {
            self.lemma_wf();
            self.boxes.lemma_order();
        }
        if !self.boxes.contains(subject) {
            let mut fresh = Ballot::new();
            fresh.cast(voter, value, at, id);
            self.boxes.insert(subject, fresh);
            self.total = self.total + 1;
            proof {
                assert(fresh@ =~= Map::<Seq<char>, Mark>::empty().insert(voter@, mark));
                assert(fresh@.dom() =~= Set::<Seq<char>>::empty().insert(voter@));
                assert(self@ =~= ballots_step(start@, subject@, voter@, mark));
                let n = start.order().len() as int;
                assert(!start.order().contains(subject@));
                assert forall|i: int| 0 <= i < n implies marks_on(start@, #[trigger] start.order()[i]).dom().len()
                    == marks_on(self@, start.order()[i]).dom().len() by {
                    assert(start.order()[i] != subject@);
                }
                lemma_marks_in_same(start@, self@, start.order(), self.order(), n);
                assert(self.order()[n] == subject@);
            }
        } else {
            let before: usize = match self.boxes.get(subject) {
                Some(b) => b.len(),
                None => 0,
            };
            let mut after: usize = before;
            proof {
                start.boxes@[subject@].lemma_wf();
            }
            if let Some(b) = self.boxes.get_mut(subject) {
                b.cast(voter, value, at, id);
                after = b.len();
            }
            proof {
                let marks = mark_step(start@[subject@], voter@, mark);
                assert(self@ =~= start@.insert(subject@, marks));
                assert(marks.dom() =~= start@[subject@].dom().insert(voter@));
                let n = start.order().len() as int;
                lemma_marks_in_update(start@, start.order(), subject@, marks, n);
                assert(start.order().take(n) =~= start.order());
                assert(self.order() == start.order());
            }
            if after != before {
                self.total = self.total + 1;
            }
        }
    }
}

} // verus!

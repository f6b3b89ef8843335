//! A map from text keys to values that remembers the order in which its keys first came.
use vstd::hash_map::StringHashMap;
use vstd::prelude::*;

verus! {

/// A text-keyed map: a hash index into two parallel lists.
pub struct Table<V> {
    slots: StringHashMap<usize>,
    keys: Vec<String>,
    vals: Vec<V>,
}

impl<V> View for Table<V> {
    type V = Map<Seq<char>, V>;

    closed spec fn view(&self) -> Map<Seq<char>, V> {
        Map::new(|k: Seq<char>| self.slots@.contains_key(k), |k: Seq<char>| self.vals@[self.slots@[k] as int])
    }
}

impl<V> Table<V> {
    /// The keys in the order in which they first came.
    pub closed spec fn order(&self) -> Seq<Seq<char>> {
        Seq::new(self.keys@.len(), |i: int| self.keys@[i]@)
    }

    /// The index and the two lists agree.
    pub closed spec fn wf(&self) -> bool {
        &&& self.keys@.len() == self.vals@.len()
        &&& forall|k: Seq<char>| #[trigger] self.slots@.contains_key(k) ==> {
            &&& self.slots@[k] < self.keys@.len()
            &&& self.keys@[self.slots@[k] as int]@ == k
        }
        &&& forall|i: int| 0 <= i < self.keys@.len() ==> {
            &&& self.slots@.contains_key(#[trigger] self.keys@[i]@)
            &&& self.slots@[self.keys@[i]@] == i
        }
    }

    /// The keys are listed once each, and they are the map's domain.
    pub proof fn lemma_order(&self)
        requires
            self.wf(),
        ensures
            self.order().no_duplicates(),
            self.order().to_set() == self@.dom(),
            self@.dom().finite(),
            self@.dom().len() == self.order().len(),
            self.order().len() <= usize::MAX,
            forall|k: Seq<char>| self@.contains_key(k) <==> self.order().contains(k),
    {
        let order = self.order();
        assert forall|i: int, j: int| 0 <= i < order.len() && 0 <= j < order.len() && i != j implies order[i]
            != order[j] by {
            assert(self.slots@[self.keys@[i]@] == i);
            assert(self.slots@[self.keys@[j]@] == j);
        }
        assert forall|k: Seq<char>| self@.contains_key(k) <==> order.contains(k) by {
            if self@.contains_key(k) {
                assert(order[self.slots@[k] as int] == k);
            }
            if order.contains(k) {
                let i = choose|i: int| 0 <= i < order.len() && order[i] == k;
                assert(self.slots@.contains_key(self.keys@[i]@));
            }
        }
        assert(order.to_set() =~= self@.dom());
        order.unique_seq_to_set();
        assert(self.keys@.len() == self.keys.len());
    }

    /// A map with no keys.
    pub fn new() -> (table: Self)
        ensures
            table.wf(),
            table@ == Map::<Seq<char>, V>::empty(),
            table.order() == Seq::<Seq<char>>::empty(),
    {
        let table = Table { slots: StringHashMap::new(), keys: Vec::new(), vals: Vec::new() };
        assert(table@ =~= Map::<Seq<char>, V>::empty());
        assert(table.order() =~= Seq::<Seq<char>>::empty());
        table
    }

    /// How many keys there are.
    pub fn len(&self) -> (n: usize)
        requires
            self.wf(),
        ensures
            n == self.order().len(),
            n == self@.dom().len(),
    {
        proof {
            self.lemma_order();
        }
        self.keys.len()
    }

    /// Is `key` in the map?
    pub fn contains(&self, key: &str) -> (found: bool)
        requires
            self.wf(),
        ensures
            found == self@.contains_key(key@),
    {
        self.slots.contains_key(key)
    }

    /// The value under `key`.
    pub fn get(&self, key: &str) -> (value: Option<&V>)
        requires
            self.wf(),
        ensures
            match value {
                Some(v) => self@.contains_key(key@) && *v == self@[key@],
                None => !self@.contains_key(key@),
            },
    {
        match self.slots.get(key) {
            Some(slot) => Some(&self.vals[*slot]),
            None => None,
        }
    }

    /// The key that came `i`-th.
    pub fn key_at(&self, i: usize) -> (key: &String)
        requires
            self.wf(),
            i < self.order().len(),
        ensures
            key@ == self.order()[i as int],
            self@.contains_key(key@),
    {
        assert(self.slots@.contains_key(self.keys@[i as int]@));
        &self.keys[i]
    }

    /// The value under the key that came `i`-th.
    pub fn val_at(&self, i: usize) -> (value: &V)
        requires
            self.wf(),
            i < self.order().len(),
        ensures
            self@.contains_key(self.order()[i as int]),
            *value == self@[self.order()[i as int]],
    {
        assert(self.slots@.contains_key(self.keys@[i as int]@));
        &self.vals[i]
    }

    /// Put `value` under `key`, replacing what was there.
    pub fn insert(&mut self, key: &str, value: V)
        requires
            old(self).wf(),
        ensures
            final(self).wf(),
            final(self)@ == old(self)@.insert(key@, value),
            old(self)@.contains_key(key@) ==> final(self).order() == old(self).order(),
            !old(self)@.contains_key(key@) ==> final(self).order() == old(self).order().push(key@),
    {
        let slot: Option<usize> = match self.slots.get(key) {
            Some(s) => Some(*s),
            None => None,
        };
        match slot {
            Some(s) => {
                self.vals.set(s, value);
                assert(self.order() =~= old(self).order());
                assert(self@ =~= old(self)@.insert(key@, value));
            },
            None => {
                let s: usize = self.keys.len();
                self.keys.push(key.to_owned());
                self.vals.push(value);
                self.slots.insert(key.to_owned(), s);
                assert(self.order() =~= old(self).order().push(key@));
                assert(forall|i: int| 0 <= i < s ==> self.keys@[i] == old(self).keys@[i]);
                assert forall|k: Seq<char>| #[trigger] self.slots@.contains_key(k) implies {
                    &&& self.slots@[k] < self.keys@.len()
                    &&& self.keys@[self.slots@[k] as int]@ == k
                } by {
                    if k != key@ {
                        assert(old(self).slots@.contains_key(k));
                    }
                }
                assert(self@ =~= old(self)@.insert(key@, value));
            },
        }
    }

    /// The value under `key`, to be changed in place.
    pub fn get_mut(&mut self, key: &str) -> (value: Option<&mut V>)
        requires
            old(self).wf(),
        ensures
            match value {
                Some(v) => {
                    &&& old(self)@.contains_key(key@)
                    &&& *v == old(self)@[key@]
                    &&& final(self).wf()
                    &&& final(self)@ == old(self)@.insert(key@, *final(v))
                    &&& final(self).order() == old(self).order()
                },
                None => !old(self)@.contains_key(key@) && *final(self) == *old(self),
            },
    {
        let slot: Option<usize> = match self.slots.get(key) {
            Some(s) => Some(*s),
            None => None,
        };
        match slot {
            Some(s) => Some(&mut self.vals[s]),
            None => None,
        }
    }
}

} // verus!

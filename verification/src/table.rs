//! A table of per-player values, keyed by player name, remembering the order
//! in which players first appeared.

use vstd::prelude::*;

verus! {

/// Per-player values keyed by name. No name occurs twice.
#[derive(Debug)]
pub struct PlayerTable<T> {
    entries: Vec<(String, T)>,
}

/// The names of `entries`, in order.
pub open spec fn entry_names<T>(entries: Seq<(String, T)>) -> Seq<Seq<char>> {
    entries.map_values(|e: (String, T)| e.0@)
}

impl<T> PlayerTable<T> {
    /// The player names, in the order in which they were first inserted.
    pub closed spec fn keys(&self) -> Seq<Seq<char>> {
        entry_names(self.entries@)
    }

    /// Position of the entry for `k`.
    closed spec fn position_of(&self, k: Seq<char>) -> int {
        choose|i: int| 0 <= i < self.keys().len() && self.keys()[i] == k
    }

    /// The value held for each player.
    pub closed spec fn as_map(&self) -> Map<Seq<char>, T> {
        Map::new(|k: Seq<char>| self.keys().contains(k), |k: Seq<char>| self.entries@[self.position_of(k)].1)
    }

    #[verifier::type_invariant]
    closed spec fn names_distinct(&self) -> bool {
        self.keys().no_duplicates()
    }

    proof fn lemma_position(&self, i: int)
        requires
            self.names_distinct(),
            0 <= i < self.entries@.len(),
        ensures
            self.position_of(self.entries@[i].0@) == i,
            self.keys().contains(self.entries@[i].0@),
            self.as_map()[self.entries@[i].0@] == self.entries@[i].1,
    {
        let k = self.entries@[i].0@;
        assert(self.keys()[i] == k);
        let p = self.position_of(k);
        assert(self.keys()[p] == k);
        assert(self.entries@[p].0@ == k);
    }

    proof fn lemma_absent(&self, k: Seq<char>)
        requires
            forall|i: int| 0 <= i < self.entries@.len() ==> self.entries@[i].0@ != k,
        ensures
            !self.as_map().contains_key(k),
    {
        if self.keys().contains(k) {
            let i = choose|i: int| 0 <= i < self.keys().len() && self.keys()[i] == k;
            assert(self.entries@[i].0@ == k);
        }
    }
}

impl<T> PlayerTable<T> {
    /// Changing one entry's value in place keeps every other player's value.
    proof fn lemma_others_kept_in_place(pre: &Self, post: &Self, i: int)
        requires
            pre.names_distinct(),
            0 <= i < pre.entries@.len(),
            post.entries@.len() == pre.entries@.len(),
            post.entries@[i].0@ == pre.entries@[i].0@,
            forall|j: int| 0 <= j < pre.entries@.len() && j != i ==> post.entries@[j] == pre.entries@[j],
        ensures
            post.keys() == pre.keys(),
            post.names_distinct(),
            post@.dom() == pre@.dom(),
            post@.contains_key(pre.keys()[i]),
            post@[pre.keys()[i]] == post.entries@[i].1,
            forall|k: Seq<char>|
                #[trigger] pre@.contains_key(k) && k != pre.keys()[i] ==> post@[k] == pre@[k],
    {
        assert(post.keys() =~= pre.keys()) by {
            assert forall|j: int| 0 <= j < pre.entries@.len() implies post.keys()[j] == pre.keys()[j] by {
                if j != i {
                    assert(post.entries@[j] == pre.entries@[j]);
                }
            }
        }
        post.lemma_position(i);
        assert(post@.dom() =~= pre@.dom());
        assert forall|k: Seq<char>| #[trigger] pre@.contains_key(k) && k != pre.keys()[i] implies post@[k]
            == pre@[k] by {
            let p = pre.position_of(k);
            assert(pre.keys()[p] == k);
            assert(pre.entries@[p].0@ == k);
            pre.lemma_position(p);
            assert(p != i);
            assert(post.entries@[p] == pre.entries@[p]);
            post.lemma_position(p);
        }
    }

    /// Appending an entry for a new player keeps every other player's value.
    proof fn lemma_others_kept_on_append(pre: &Self, post: &Self, key: Seq<char>)
        requires
            pre.names_distinct(),
            !pre@.contains_key(key),
            post.entries@.len() == pre.entries@.len() + 1,
            post.entries@.last().0@ == key,
            forall|j: int| 0 <= j < pre.entries@.len() ==> post.entries@[j] == pre.entries@[j],
        ensures
            post.keys() == pre.keys().push(key),
            post.names_distinct(),
            post@.contains_key(key),
            post@[key] == post.entries@.last().1,
            forall|k: Seq<char>|
                #[trigger] pre@.contains_key(k) ==> post@.contains_key(k) && post@[k] == pre@[k]
                    && k != key,
            forall|k: Seq<char>| #[trigger] post@.contains_key(k) ==> pre@.contains_key(k) || k == key,
    {
        assert(post.keys() =~= pre.keys().push(key)) by {
            assert forall|j: int| 0 <= j < pre.entries@.len() implies post.keys()[j] == pre.keys()[j] by {
                assert(post.entries@[j] == pre.entries@[j]);
            }
        }
        assert(post.names_distinct()) by {
            assert(!pre.keys().contains(key));
        }
        post.lemma_position(pre.entries@.len() as int);
        assert forall|k: Seq<char>| #[trigger] pre@.contains_key(k) implies post@.contains_key(k)
            && post@[k] == pre@[k] && k != key by {
            let p = pre.position_of(k);
            assert(pre.keys()[p] == k);
            assert(pre.entries@[p].0@ == k);
            pre.lemma_position(p);
            assert(post.entries@[p] == pre.entries@[p]);
            post.lemma_position(p);
        }
        assert forall|k: Seq<char>| #[trigger] post@.contains_key(k) implies pre@.contains_key(k)
            || k == key by {
            let j = choose|j: int| 0 <= j < post.keys().len() && post.keys()[j] == k;
            if j < pre.keys().len() {
                assert(pre.keys()[j] == k);
            }
        }
    }
}

impl<T> View for PlayerTable<T> {
    type V = Map<Seq<char>, T>;

    open spec fn view(&self) -> Map<Seq<char>, T> {
        self.as_map()
    }
}

impl<T> PlayerTable<T> {
    /// An empty table.
    pub fn new() -> (t: Self)
        ensures
            t@ == Map::<Seq<char>, T>::empty(),
            t.keys() == Seq::<Seq<char>>::empty(),
    {
        let t = PlayerTable { entries: Vec::new() };
        assert(t.keys() =~= Seq::<Seq<char>>::empty());
        assert(t@ =~= Map::<Seq<char>, T>::empty());
        t
    }

    /// Number of players in the table.
    pub fn len(&self) -> (n: usize)
        ensures
            n == self.keys().len(),
            self.keys().no_duplicates(),
            self@.dom() == self.keys().to_set(),
    {
        proof {
            use_type_invariant(self);
            assert(self@.dom() =~= self.keys().to_set());
        }
        self.entries.len()
    }

    /// Position of `key`, or the number of entries when it is absent.
    fn find(&self, key: &str) -> (i: usize)
        ensures
            i <= self.entries@.len(),
            i < self.entries@.len() ==> self.entries@[i as int].0@ == key@,
            i == self.entries@.len() ==> forall|j: int|
                0 <= j < self.entries@.len() ==> self.entries@[j].0@ != key@,
    {
        let k = key.to_owned();
        let mut i: usize = 0;
        while i < self.entries.len()
            invariant
                i <= self.entries@.len(),
                k@ == key@,
                forall|j: int| 0 <= j < i ==> self.entries@[j].0@ != key@,
            decreases self.entries.len() - i,
        {
            if self.entries[i].0 == k {
                return i;
            }
            i = i + 1;
        }
        i
    }

    /// Whether the table holds a value for `key`.
    pub fn contains(&self, key: &str) -> (b: bool)
        ensures
            b == self@.contains_key(key@),
    {
        proof {
            use_type_invariant(self);
        }
        let i = self.find(key);
        proof {
            if i < self.entries.len() {
                self.lemma_position(i as int);
            } else {
                self.lemma_absent(key@);
            }
        }
        i < self.entries.len()
    }

    /// The value held for `key`, if any.
    pub fn get(&self, key: &str) -> (v: Option<&T>)
        ensures
            match v {
                Some(x) => self@.contains_key(key@) && *x == self@[key@],
                None => !self@.contains_key(key@),
            },
    {
        proof {
            use_type_invariant(self);
        }
        let i = self.find(key);
        if i < self.entries.len() {
            proof {
                self.lemma_position(i as int);
            }
            Some(&self.entries[i].1)
        } else {
            proof {
                self.lemma_absent(key@);
            }
            None
        }
    }

    /// The name at position `i` of the insertion order.
    pub fn key_at(&self, i: usize) -> (k: &String)
        requires
            i < self.keys().len(),
        ensures
            k@ == self.keys()[i as int],
    {
        &self.entries[i].0
    }

    /// The value held for the player at position `i` of the insertion order.
    pub fn value_at(&self, i: usize) -> (v: &T)
        requires
            i < self.keys().len(),
        ensures
            *v == self@[self.keys()[i as int]],
    {
        proof {
            use_type_invariant(self);
            self.lemma_position(i as int);
        }
        &self.entries[i].1
    }
}

impl<T> PlayerTable<T> {
    /// Holds `value` for `key`: a player already present keeps its place in the
    /// order, a new one goes last.
    pub fn insert(&mut self, key: &str, value: T)
        ensures
            final(self)@ == old(self)@.insert(key@, value),
            final(self).keys() == if old(self)@.contains_key(key@) {
                old(self).keys()
            } else {
                old(self).keys().push(key@)
            },
    {
        proof {
            use_type_invariant(&*self);
        }
        let i = self.find(key);
        let ghost pre = *self;
        if i < self.entries.len() {
            proof {
                pre.lemma_position(i as int);
            }
            let mut entries: Vec<(String, T)> = Vec::new();
            std::mem::swap(&mut entries, &mut self.entries);
            entries[i].1 = value;
            proof {
                assert(entry_names(entries@) =~= pre.keys());
            }
            self.entries = entries;
            proof {
                Self::lemma_others_kept_in_place(&pre, self, i as int);
                assert(self@ =~= pre@.insert(key@, value));
            }
        } else {
            proof {
                pre.lemma_absent(key@);
            }
            let mut entries: Vec<(String, T)> = Vec::new();
            std::mem::swap(&mut entries, &mut self.entries);
            entries.push((key.to_owned(), value));
            proof {
                assert(entry_names(entries@) =~= pre.keys().push(key@));
                assert(entry_names(entries@).no_duplicates()) by {
                    assert(!pre.keys().contains(key@));
                }
            }
            self.entries = entries;
            proof {
                Self::lemma_others_kept_on_append(&pre, self, key@);
                assert(self@ =~= pre@.insert(key@, value));
            }
        }
    }

    /// Replaces the value of the player at position `i` of the order.
    pub fn set_value_at(&mut self, i: usize, value: T)
        requires
            i < old(self).keys().len(),
        ensures
            final(self)@ == old(self)@.insert(old(self).keys()[i as int], value),
            final(self).keys() == old(self).keys(),
    {
        proof {
            use_type_invariant(&*self);
        }
        let ghost pre = *self;
        let ghost key = pre.keys()[i as int];
        proof {
            pre.lemma_position(i as int);
        }
        let mut entries: Vec<(String, T)> = Vec::new();
        std::mem::swap(&mut entries, &mut self.entries);
        entries[i].1 = value;
        proof {
            assert(entry_names(entries@) =~= pre.keys());
        }
        self.entries = entries;
        proof {
            Self::lemma_others_kept_in_place(&pre, self, i as int);
            assert(self@ =~= pre@.insert(key, value));
        }
    }
}

/// What a read gives back of a write: once `insert(key, value)` has turned
/// `before` into `after`, `get(key)` gives `value`, every other player gives
/// back what it gave before (or still nothing), and the order of players only
/// gains `key` at its end when `key` is new.
pub proof fn lemma_read_after_insert<T>(
    before: PlayerTable<T>,
    after: PlayerTable<T>,
    key: Seq<char>,
    value: T,
    other: Seq<char>,
)
    requires
        after@ == before@.insert(key, value),
        after.keys() == if before@.contains_key(key) {
            before.keys()
        } else {
            before.keys().push(key)
        },
    ensures
        after@.contains_key(key),
        after@[key] == value,
        other != key ==> (after@.contains_key(other) <==> before@.contains_key(other)),
        other != key && before@.contains_key(other) ==> after@[other] == before@[other],
        after.keys().len() == before.keys().len() + if before@.contains_key(key) {
            0int
        } else {
            1int
        },
        forall|i: int| 0 <= i < before.keys().len() ==> after.keys()[i] == before.keys()[i],
{
}

/// Length of the list held for `k` in `m`; zero when `m` holds none.
pub open spec fn list_len<E>(m: Map<Seq<char>, Vec<E>>, k: Seq<char>) -> nat {
    if m.contains_key(k) {
        m[k]@.len()
    } else {
        0
    }
}

/// `after` is `before` with `item` appended to the list of `key` (to a new,
/// empty list when `key` had none), every other player's list unchanged.
pub open spec fn appended<E>(
    before: Map<Seq<char>, Vec<E>>,
    after: Map<Seq<char>, Vec<E>>,
    key: Seq<char>,
    item: E,
) -> bool {
    &&& after.contains_key(key)
    &&& after[key]@ == (if before.contains_key(key) {
        before[key]@
    } else {
        Seq::<E>::empty()
    }).push(item)
    &&& after.remove(key) == before.remove(key)
}

/// Appending to a player's list (as `push_to` does) raises that player's
/// count by one and leaves every other player's count unchanged.
pub proof fn lemma_push_counts<E>(
    before: Map<Seq<char>, Vec<E>>,
    after: Map<Seq<char>, Vec<E>>,
    key: Seq<char>,
    item: E,
    other: Seq<char>,
)
    requires
        appended(before, after, key, item),
    ensures
        list_len(after, key) == list_len(before, key) + 1,
        other != key ==> list_len(after, other) == list_len(before, other),
{
    if other != key {
        assert(after.remove(key).contains_key(other) == after.contains_key(other));
        assert(before.remove(key).contains_key(other) == before.contains_key(other));
        if after.contains_key(other) {
            assert(after.remove(key)[other] == after[other]);
            assert(before.remove(key)[other] == before[other]);
        }
    }
}

/// How many of `steps` append something for `p` (a `None` step appends nothing).
pub open spec fn appends_for<E>(steps: Seq<Option<(Seq<char>, E)>>, p: Seq<char>) -> nat
    decreases steps.len(),
{
    if steps.len() == 0 {
        0
    } else {
        appends_for(steps.drop_last(), p) + match steps.last() {
            Some((k, _)) => if k == p {
                1nat
            } else {
                0nat
            },
            None => 0nat,
        }
    }
}

/// One step of a history: `Some((key, item))` is a `push_to(key, item)`,
/// `None` a step that leaves the table alone.
pub open spec fn follows<E>(
    before: Map<Seq<char>, Vec<E>>,
    after: Map<Seq<char>, Vec<E>>,
    step: Option<(Seq<char>, E)>,
) -> bool {
    match step {
        Some((key, item)) => appended(before, after, key, item),
        None => after == before,
    }
}

/// A table that starts empty and then goes through `steps` (each one a
/// `push_to` or a step that leaves the table alone) holds, for every player,
/// exactly as many items as there were `push_to` calls for that player, and
/// none for a player never pushed to.
pub proof fn lemma_counts_follow_history<E>(
    states: Seq<Map<Seq<char>, Vec<E>>>,
    steps: Seq<Option<(Seq<char>, E)>>,
    p: Seq<char>,
)
    requires
        states.len() == steps.len() + 1,
        states[0] == Map::<Seq<char>, Vec<E>>::empty(),
        forall|i: int| #![trigger steps[i]] 0 <= i < steps.len() ==> follows(states[i], states[i + 1], steps[i]),
    ensures
        list_len(states.last(), p) == appends_for(steps, p),
    decreases steps.len(),
{
    if steps.len() > 0 {
        let n = steps.len() - 1;
        let pre_states = states.drop_last();
        let pre_steps = steps.drop_last();
        assert forall|i: int| #![trigger pre_steps[i]] 0 <= i < pre_steps.len() implies follows(
            pre_states[i],
            pre_states[i + 1],
            pre_steps[i],
        ) by {
            assert(pre_steps[i] == steps[i]);
            assert(follows(states[i], states[i + 1], steps[i]));
        }
        lemma_counts_follow_history(pre_states, pre_steps, p);
        assert(pre_states.last() == states[n]);
        assert(follows(states[n], states[n + 1], steps[n]));
        assert(states.last() == states[n + 1]);
        match steps[n] {
            Some((key, item)) => {
                lemma_push_counts(states[n], states[n + 1], key, item, p);
            },
            None => {},
        }
    }
}

/// A new table holds no list for anyone.
pub proof fn lemma_new_counts_zero<E>(k: Seq<char>)
    ensures
        list_len(Map::<Seq<char>, Vec<E>>::empty(), k) == 0,
{
}

impl<E> PlayerTable<Vec<E>> {
    /// Length of the list held for `key`; zero for an unknown player.
    pub fn count_for(&self, key: &str) -> (n: usize)
        ensures
            n == list_len(self@, key@),
    {
        match self.get(key) {
            Some(list) => list.len(),
            None => 0,
        }
    }

    /// Appends `item` to the list held for `key`, starting an empty list for a
    /// new player (who goes last in the order); every other list is unchanged.
    pub fn push_to(&mut self, key: &str, item: E)
        ensures
            final(self).keys() == if old(self)@.contains_key(key@) {
                old(self).keys()
            } else {
                old(self).keys().push(key@)
            },
            appended(old(self)@, final(self)@, key@, item),
    {
        proof {
            use_type_invariant(&*self);
        }
        let i = self.find(key);
        let ghost pre = *self;
        if i < self.entries.len() {
            proof {
                pre.lemma_position(i as int);
            }
            let mut entries: Vec<(String, Vec<E>)> = Vec::new();
            std::mem::swap(&mut entries, &mut self.entries);
            entries[i].1.push(item);
            proof {
                assert(entry_names(entries@) =~= pre.keys());
            }
            self.entries = entries;
            proof {
                Self::lemma_others_kept_in_place(&pre, self, i as int);
                assert(self@.remove(key@) =~= pre@.remove(key@));
            }
        } else {
            proof {
                pre.lemma_absent(key@);
            }
            let mut list: Vec<E> = Vec::new();
            list.push(item);
            let mut entries: Vec<(String, Vec<E>)> = Vec::new();
            std::mem::swap(&mut entries, &mut self.entries);
            entries.push((key.to_owned(), list));
            proof {
                assert(entry_names(entries@) =~= pre.keys().push(key@));
                assert(entry_names(entries@).no_duplicates()) by {
                    assert(!pre.keys().contains(key@));
                }
            }
            self.entries = entries;
            proof {
                Self::lemma_others_kept_on_append(&pre, self, key@);
                assert(self@.remove(key@) =~= pre@.remove(key@));
                assert(list@ =~= Seq::<E>::empty().push(item));
            }
        }
    }
}

impl<T: Clone> Clone for PlayerTable<T> {
    /// A copy with the same players in the same order, each value cloned.
    fn clone(&self) -> (c: Self)
        ensures
            c.keys() == self.keys(),
            c@.dom() == self@.dom(),
            forall|k: Seq<char>| #[trigger] c@.contains_key(k) ==> cloned(self@[k], c@[k]),
    {
        proof {
            use_type_invariant(self);
        }
        let mut entries: Vec<(String, T)> = Vec::new();
        let mut i: usize = 0;
        while i < self.entries.len()
            invariant
                i <= self.entries@.len(),
                entries@.len() == i,
                entry_names(entries@) == entry_names(self.entries@).take(i as int),
                forall|j: int| 0 <= j < i ==> cloned(self.entries@[j].1, #[trigger] entries@[j].1),
            decreases self.entries.len() - i,
        {
            let name = self.entries[i].0.clone();
            let value = self.entries[i].1.clone();
            let ghost before = entries@;
            entries.push((name, value));
            proof {
                assert(entry_names(entries@) =~= entry_names(self.entries@).take(i + 1));
                assert forall|j: int| 0 <= j < i + 1 implies cloned(
                    self.entries@[j].1,
                    #[trigger] entries@[j].1,
                ) by {
                    if j < i {
                        assert(entries@[j] == before[j]);
                    }
                }
            }
            i = i + 1;
        }
        proof {
            assert(entry_names(self.entries@).take(self.entries@.len() as int) =~= entry_names(
                self.entries@,
            ));
        }
        let c = PlayerTable { entries };
        proof {
            assert(c@.dom() =~= self@.dom());
            assert forall|k: Seq<char>| #[trigger] c@.contains_key(k) implies cloned(
                self@[k],
                c@[k],
            ) by {
                let i = choose|i: int| 0 <= i < c.keys().len() && c.keys()[i] == k;
                assert(c.entries@[i].0@ == k);
                assert(self.entries@[i].0@ == k);
                c.lemma_position(i);
                self.lemma_position(i);
            }
        }
        c
    }
}

} // verus!

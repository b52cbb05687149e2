//! A map from words to values, kept as a vector sorted by key so that the
//! keys can be listed in lexicographic order.

use vstd::prelude::*;

verus! {

/// How one word stands to another in lexicographic order.
#[derive(Debug, Clone, Copy, PartialEq, Eq)]
pub enum Order {
    Before,
    Same,
    After,
}

/// Whether `a` comes before `b` lexicographically, given that they agree
/// before index `i`.
pub open spec fn lex_less_from(a: Seq<char>, b: Seq<char>, i: int) -> bool
    decreases a.len() - i,
{
    if i < 0 || i >= b.len() {
        false
    } else if i >= a.len() {
        true
    } else if a[i] != b[i] {
        a[i] < b[i]
    } else {
        lex_less_from(a, b, i + 1)
    }
}

/// Strict lexicographic order by code point: the order of `String`.
pub open spec fn lex_less(a: Seq<char>, b: Seq<char>) -> bool {
    lex_less_from(a, b, 0)
}

/// Whether the words are in strictly ascending order.
pub open spec fn ascending(keys: Seq<Seq<char>>) -> bool {
    forall|i: int, j: int| 0 <= i < j < keys.len() ==> lex_less(keys[i], keys[j])
}

proof fn lemma_less_from_transitive(a: Seq<char>, b: Seq<char>, c: Seq<char>, i: int)
    requires
        0 <= i,
        lex_less_from(a, b, i),
        lex_less_from(b, c, i),
    ensures
        lex_less_from(a, c, i),
    decreases a.len() - i,
{
    if i < a.len() && a[i] == b[i] && b[i] == c[i] {
        lemma_less_from_transitive(a, b, c, i + 1);
    }
}

proof fn lemma_less_from_asymmetric(a: Seq<char>, b: Seq<char>, i: int)
    requires
        0 <= i,
    ensures
        !(lex_less_from(a, b, i) && lex_less_from(b, a, i)),
    decreases a.len() - i,
{
    if i < a.len() && i < b.len() && a[i] == b[i] {
        lemma_less_from_asymmetric(a, b, i + 1);
    }
}

/// The order is transitive.
pub proof fn lemma_lex_transitive(a: Seq<char>, b: Seq<char>, c: Seq<char>)
    requires
        lex_less(a, b),
        lex_less(b, c),
    ensures
        lex_less(a, c),
{
    lemma_less_from_transitive(a, b, c, 0);
}

/// No word comes before itself, and of two words at most one comes before
/// the other.
pub proof fn lemma_lex_asymmetric(a: Seq<char>, b: Seq<char>)
    ensures
        !(lex_less(a, b) && lex_less(b, a)),
        !lex_less(a, a),
{
    lemma_less_from_asymmetric(a, b, 0);
    lemma_less_from_asymmetric(a, a, 0);
}

/// Words in strictly ascending order are pairwise different.
pub proof fn lemma_ascending_distinct(keys: Seq<Seq<char>>)
    requires
        ascending(keys),
    ensures
        keys.no_duplicates(),
{
    assert forall|i: int, j: int| 0 <= i < keys.len() && 0 <= j < keys.len() && i != j implies keys[i]
        != keys[j] by {
        lemma_lex_asymmetric(keys[i], keys[i]);
        if i < j {
            assert(lex_less(keys[i], keys[j]));
        } else {
            assert(lex_less(keys[j], keys[i]));
        }
    }
}

/// How `a` stands to `b` in lexicographic order.
pub fn order_of(a: &Vec<char>, b: &Vec<char>) -> (r: Order)
    ensures
        match r {
            Order::Before => lex_less(a@, b@),
            Order::Same => a@ == b@,
            Order::After => lex_less(b@, a@),
        },
{
    let mut i: usize = 0;
    while i < a.len() && i < b.len()
        invariant
            i <= a.len(),
            i <= b.len(),
            forall|j: int| 0 <= j < i ==> a[j] == b[j],
            lex_less(a@, b@) == lex_less_from(a@, b@, i as int),
            lex_less(b@, a@) == lex_less_from(b@, a@, i as int),
        decreases a.len() - i,
    {
        if a[i] < b[i] {
            return Order::Before;
        }
        if a[i] > b[i] {
            return Order::After;
        }
        i += 1;
    }
    if i < b.len() {
        Order::Before
    } else if i < a.len() {
        Order::After
    } else {
        assert(a@ =~= b@);
        Order::Same
    }
}

/// A finite map from words to values.
pub struct WordMap<V> {
    entries: Vec<(Vec<char>, V)>,
}

impl<V> WordMap<V> {
    /// The keys stand in strictly ascending order. This holds of every
    /// `WordMap` that a program can hold.
    #[verifier::type_invariant]
    pub closed spec fn well_formed(self) -> bool {
        ascending(self.keys())
    }

    /// The keys in ascending lexicographic order.
    pub closed spec fn keys(self) -> Seq<Seq<char>> {
        Seq::new(self.entries@.len(), |i: int| self.entries@[i].0@)
    }

    /// The values in the order of their keys.
    pub closed spec fn values(self) -> Seq<V> {
        Seq::new(self.entries@.len(), |i: int| self.entries@[i].1)
    }

    /// The map that the structure stands for.
    pub closed spec fn view(self) -> Map<Seq<char>, V> {
        Map::new(
            |k: Seq<char>| self.keys().contains(k),
            |k: Seq<char>| self.values()[self.keys().index_of(k)],
        )
    }

    /// How the sorted keys and the map go together: the keys are exactly the
    /// domain, each once and in ascending order, and each value stands at the
    /// index of its key.
    pub proof fn lemma_keys(self)
        requires
            self.well_formed(),
        ensures
            ascending(self.keys()),
            self.keys().no_duplicates(),
            self.keys().len() == self.values().len(),
            self@.dom() == self.keys().to_set(),
            self@.dom().finite(),
            self@.len() == self.keys().len(),
            forall|i: int|
                0 <= i < self.keys().len() ==> self@.contains_key(#[trigger] self.keys()[i])
                    && self@[self.keys()[i]] == self.values()[i],
    {
        let keys = self.keys();
        lemma_ascending_distinct(keys);
        assert(self@.dom() =~= keys.to_set());
        vstd::seq_lib::seq_to_set_is_finite(keys);
        keys.unique_seq_to_set();
        assert forall|i: int| 0 <= i < keys.len() implies self@.contains_key(#[trigger] keys[i])
            && self@[keys[i]] == self.values()[i] by {
            assert(keys.contains(keys[i]));
            keys.index_of_first_ensures(keys[i]);
            let j = keys.index_of(keys[i]);
            assert(keys[j] == keys[i]);
        }
    }

    /// The map without entries.
    pub fn new() -> (r: Self)
        ensures
            r@ == Map::<Seq<char>, V>::empty(),
    {
        let r = WordMap { entries: Vec::new() };
        assert(r@ =~= Map::<Seq<char>, V>::empty()) by {
            assert(r.keys() =~= Seq::<Seq<char>>::empty());
        }
        r
    }

    /// Number of entries.
    pub fn len(&self) -> (r: usize)
        ensures
            r == self@.len(),
            r == self.keys().len(),
            self@.dom().finite(),
    {
        proof {
            use_type_invariant(self);
            self.lemma_keys();
        }
        self.entries.len()
    }

    /// Where `key` stands among the entries: its index if it is a key, and
    /// else the index at which it would have to be put in.
    fn locate(&self, key: &Vec<char>) -> (r: (bool, usize))
        ensures
            r.1 <= self.keys().len(),
            r.0 ==> r.1 < self.keys().len() && self.keys()[r.1 as int] == key@,
            !r.0 ==> !self.keys().contains(key@),
            forall|j: int| 0 <= j < r.1 ==> lex_less(#[trigger] self.keys()[j], key@),
            forall|j: int|
                r.1 <= j < self.keys().len() && !(r.0 && j == r.1) ==> lex_less(
                    key@,
                    #[trigger] self.keys()[j],
                ),
    {
        proof {
            use_type_invariant(self);
        }
        let ghost keys = self.keys();
        let mut lo: usize = 0;
        let mut hi: usize = self.entries.len();
        while lo < hi
            invariant
                lo <= hi <= self.entries.len(),
                keys == self.keys(),
                keys.len() == self.entries.len(),
                ascending(keys),
                forall|j: int| 0 <= j < lo ==> lex_less(#[trigger] keys[j], key@),
                forall|j: int| hi <= j < keys.len() ==> lex_less(key@, #[trigger] keys[j]),
            decreases hi - lo,
        {
            let mid: usize = lo + (hi - lo) / 2;
            assert(keys[mid as int] == self.entries@[mid as int].0@);
            match order_of(&self.entries[mid].0, key) {
                Order::Same => {
                    proof {
                        assert forall|j: int| 0 <= j < mid implies lex_less(
                            #[trigger] keys[j],
                            key@,
                        ) by {
                            assert(lex_less(keys[j], keys[mid as int]));
                        }
                        assert forall|j: int| mid < j < keys.len() implies lex_less(
                            key@,
                            #[trigger] keys[j],
                        ) by {
                            assert(lex_less(keys[mid as int], keys[j]));
                        }
                    }
                    return (true, mid);
                },
                Order::Before => {
                    proof {
                        assert forall|j: int| 0 <= j < mid + 1 implies lex_less(
                            #[trigger] keys[j],
                            key@,
                        ) by {
                            if j < mid {
                                assert(lex_less(keys[j], keys[mid as int]));
                                lemma_lex_transitive(keys[j], keys[mid as int], key@);
                            }
                        }
                    }
                    lo = mid + 1;
                },
                Order::After => {
                    proof {
                        assert forall|j: int| mid <= j < keys.len() implies lex_less(
                            key@,
                            #[trigger] keys[j],
                        ) by {
                            if mid < j {
                                assert(lex_less(keys[mid as int], keys[j]));
                                lemma_lex_transitive(key@, keys[mid as int], keys[j]);
                            }
                        }
                    }
                    hi = mid;
                },
            }
        }
        proof {
            if keys.contains(key@) {
                let j = keys.index_of(key@);
                lemma_lex_asymmetric(key@, key@);
                if j < lo {
                    assert(lex_less(keys[j], key@));
                } else {
                    assert(lex_less(key@, keys[j]));
                }
            }
        }
        (false, lo)
    }

    /// The value stored under `key`.
    pub fn get(&self, key: &Vec<char>) -> (r: Option<&V>)
        ensures
            match r {
                Some(v) => self@.contains_key(key@) && *v == self@[key@],
                None => !self@.contains_key(key@),
            },
    {
        proof {
            use_type_invariant(self);
            self.lemma_keys();
        }
        let (found, at) = self.locate(key);
        if found {
            assert(self.values()[at as int] == self.entries@[at as int].1);
            Some(&self.entries[at].1)
        } else {
            None
        }
    }

    /// Whether something is stored under `key`.
    pub fn contains_key(&self, key: &Vec<char>) -> (r: bool)
        ensures
            r == self@.contains_key(key@),
    {
        let (found, at) = self.locate(key);
        proof {
            use_type_invariant(self);
            self.lemma_keys();
        }
        found
    }

    /// Stores `value` under `key`, in place of what was stored there.
    pub fn insert(&mut self, key: Vec<char>, value: V)
        ensures
            final(self)@ == old(self)@.insert(key@, value),
    {
        proof {
            use_type_invariant(&*self);
        }
        let ghost before = *self;
        let (found, at) = self.locate(&key);
        let mut entries: Vec<(Vec<char>, V)> = Vec::new();
        proof {
            let emptied = WordMap { entries };
            assert(emptied.keys() =~= Seq::<Seq<char>>::empty());
        }
        core::mem::swap(&mut self.entries, &mut entries);
        if found {
            entries[at] = (key, value);
        } else {
            entries.insert(at, (key, value));
        }
        proof {
            let after = WordMap { entries };
            lemma_put(before, after, found, at as int, key@, value);
        }
        core::mem::swap(&mut self.entries, &mut entries);
    }

    /// The key at index `i` of the ascending order.
    pub fn key_at(&self, i: usize) -> (r: &Vec<char>)
        requires
            i < self.keys().len(),
        ensures
            r@ == self.keys()[i as int],
    {
        &self.entries[i].0
    }
}

/// What replacing the value at a key, or putting a new key at its place in
/// the order, does to the map.
proof fn lemma_put<V>(
    before: WordMap<V>,
    after: WordMap<V>,
    found: bool,
    at: int,
    key: Seq<char>,
    value: V,
)
    requires
        before.well_formed(),
        0 <= at <= before.keys().len(),
        at < after.keys().len(),
        found ==> at < before.keys().len() && before.keys()[at] == key,
        forall|j: int| 0 <= j < at ==> lex_less(#[trigger] before.keys()[j], key),
        forall|j: int|
            at <= j < before.keys().len() && !(found && j == at) ==> lex_less(
                key,
                #[trigger] before.keys()[j],
            ),
        found ==> after.entries@ == before.entries@.update(at, after.entries@[at]),
        !found ==> after.entries@ == before.entries@.insert(at, after.entries@[at]),
        after.entries@[at].0@ == key,
        after.entries@[at].1 == value,
    ensures
        after.well_formed(),
        after@ == before@.insert(key, value),
{
    let old_keys = before.keys();
    let old_values = before.values();
    let new_keys = after.keys();
    let new_values = after.values();
    if found {
        assert(new_keys =~= old_keys);
        assert(new_values =~= old_values.update(at, value));
    } else {
        assert(new_keys =~= old_keys.insert(at, key));
        assert(new_values =~= old_values.insert(at, value));
        assert forall|i: int, j: int| 0 <= i < j < new_keys.len() implies lex_less(
            new_keys[i],
            new_keys[j],
        ) by {
            if i < at && j > at {
                assert(lex_less(old_keys[i], old_keys[j - 1]));
            } else if i > at {
                assert(lex_less(old_keys[i - 1], old_keys[j - 1]));
            } else if j < at {
                assert(lex_less(old_keys[i], old_keys[j]));
            } else if i == at {
                assert(new_keys[j] == old_keys[j - 1]);
            } else {
                assert(new_keys[i] == old_keys[i]);
            }
        }
    }
    before.lemma_keys();
    after.lemma_keys();
    lemma_lex_asymmetric(key, key);
    let want = before@.insert(key, value);
    assert forall|w: Seq<char>| after@.contains_key(w) <==> want.contains_key(w) by {
        if new_keys.contains(w) {
            let j = new_keys.index_of(w);
            if found {
                assert(old_keys[j] == w);
            } else if j < at {
                assert(old_keys[j] == w);
            } else if j > at {
                assert(old_keys[j - 1] == w);
            }
        }
        if old_keys.contains(w) {
            let j = old_keys.index_of(w);
            if found {
                assert(new_keys[j] == w);
            } else if j < at {
                assert(new_keys[j] == w);
            } else {
                assert(new_keys[j + 1] == w);
            }
        }
        if w == key {
            assert(new_keys[at] == w);
        }
    }
    assert forall|w: Seq<char>| after@.contains_key(w) implies after@[w] == want[w] by {
        let j = new_keys.index_of(w);
        assert(new_keys[j] == w);
        assert(after@[new_keys[j]] == new_values[j]);
        if j == at {
            assert(new_keys[at] == key);
            assert(new_values[at] == value);
        } else if found {
            assert(old_keys[j] == w);
            assert(before@[old_keys[j]] == old_values[j]);
        } else if j < at {
            assert(lex_less(old_keys[j], key));
            assert(before@[old_keys[j]] == old_values[j]);
        } else {
            assert(lex_less(key, old_keys[j - 1]));
            assert(before@[old_keys[j - 1]] == old_values[j - 1]);
        }
    }
    assert(after@ =~= want);
}

} // verus!

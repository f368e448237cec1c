//! A map keyed by strings that keeps its entries in ascending key order, the
//! order in which the configuration's maps are walked.
use vstd::prelude::*;

use crate::text::{
    key_lt, lemma_key_lt_asymmetric, lemma_key_lt_irreflexive, lemma_key_lt_total,
    lemma_key_lt_transitive, str_eq, str_less,
};

verus! {

/// A value with a mathematical model and a copy that keeps it.
pub trait Modeled: Sized {
    type M;

    spec fn inv(&self) -> bool;

    spec fn model(&self) -> Self::M;

    fn duplicate(&self) -> (r: Self)
        requires
            self.inv(),
        ensures
            r.inv(),
            r.model() == self.model(),
    ;
}

/// Entries with distinct keys, sorted ascending by key.
#[derive(Debug, Clone, PartialEq, Eq)]
pub struct KeyMap<T> {
    entries: Vec<(String, T)>,
}

impl<T> View for KeyMap<T> {
    type V = Map<Seq<char>, T>;

    open spec fn view(&self) -> Map<Seq<char>, T> {
        Map::new(
            |k: Seq<char>| self.has_key(k),
            |k: Seq<char>| self.value_at(self.index_of(k)),
        )
    }
}

impl<T> KeyMap<T> {
    pub closed spec fn len_spec(&self) -> nat {
        self.entries@.len()
    }

    /// The key of the `i`-th entry in ascending order.
    pub closed spec fn key_at(&self, i: int) -> Seq<char> {
        self.entries@[i].0@
    }

    /// The value of the `i`-th entry in ascending order.
    pub closed spec fn value_at(&self, i: int) -> T {
        self.entries@[i].1
    }

    /// The keys in ascending order.
    pub open spec fn keys(&self) -> Seq<Seq<char>> {
        Seq::new(self.len_spec(), |i: int| self.key_at(i))
    }

    /// The values in ascending order of their keys.
    pub open spec fn values(&self) -> Seq<T> {
        Seq::new(self.len_spec(), |i: int| self.value_at(i))
    }

    pub open spec fn has_key(&self, k: Seq<char>) -> bool {
        exists|i: int| 0 <= i < self.len_spec() && #[trigger] self.key_at(i) == k
    }

    pub open spec fn index_of(&self, k: Seq<char>) -> int {
        choose|i: int| 0 <= i < self.len_spec() && #[trigger] self.key_at(i) == k
    }

    /// Keys are strictly ascending, hence distinct.
    pub open spec fn wf(&self) -> bool {
        &&& forall|i: int, j: int|
            0 <= i < j < self.len_spec() ==> key_lt(
                #[trigger] self.key_at(i),
                #[trigger] self.key_at(j),
            )
        &&& forall|i: int, j: int|
            0 <= i < self.len_spec() && 0 <= j < self.len_spec() && i != j ==> #[trigger] self.key_at(i)
                != #[trigger] self.key_at(j)
    }

    /// In a well-formed map, the `i`-th entry is the one that its key names.
    pub proof fn lemma_entry(&self, i: int)
        requires
            self.wf(),
            0 <= i < self.keys().len(),
        ensures
            self@.contains_key(self.keys()[i]),
            self.index_of(self.keys()[i]) == i,
            self@[self.keys()[i]] == self.values()[i],
    {
        let k = self.key_at(i);
        assert(self.has_key(k));
        let j = self.index_of(k);
        assert(self.key_at(j) == k);
    }

    /// Keys of a well-formed map are distinct.
    pub proof fn lemma_distinct(&self, i: int)
        requires
            self.wf(),
            0 <= i < self.keys().len(),
        ensures
            forall|j: int| 0 <= j < self.keys().len() && j != i ==> self.keys()[j] != self.keys()[i],
    {
    }

    pub fn new() -> (r: Self)
        ensures
            r.wf(),
            r@ == Map::<Seq<char>, T>::empty(),
            r.keys() == Seq::<Seq<char>>::empty(),
    {
        let r = KeyMap { entries: Vec::new() };
        assert(r@ =~= Map::<Seq<char>, T>::empty());
        assert(r.keys() =~= Seq::<Seq<char>>::empty());
        r
    }

    pub fn len(&self) -> (r: usize)
        ensures
            r == self.keys().len(),
    {
        self.entries.len()
    }

    pub fn is_empty(&self) -> (r: bool)
        ensures
            r == (self.keys().len() == 0),
    {
        self.entries.len() == 0
    }

    /// The key of the `i`-th entry in ascending order.
    pub fn key(&self, i: usize) -> (r: &String)
        requires
            i < self.keys().len(),
        ensures
            r@ == self.keys()[i as int],
    {
        &self.entries[i].0
    }

    /// The value of the `i`-th entry in ascending order.
    pub fn value(&self, i: usize) -> (r: &T)
        requires
            i < self.keys().len(),
        ensures
            *r == self.values()[i as int],
    {
        &self.entries[i].1
    }

    /// The position of `key` among the entries, if it is present.
    pub fn find(&self, key: &str) -> (r: Option<usize>)
        requires
            self.wf(),
        ensures
            r.is_none() == !self@.contains_key(key@),
            r matches Some(i) ==> i < self.keys().len() && self.keys()[i as int] == key@,
    {
        let mut i: usize = 0;
        while i < self.entries.len()
            invariant
                i <= self.entries@.len(),
                forall|j: int| 0 <= j < i ==> self.key_at(j) != key@,
            decreases self.entries@.len() - i,
        {
            if str_eq(self.entries[i].0.as_str(), key) {
                proof {
                    assert(self.key_at(i as int) == key@);
                }
                return Some(i);
            }
            i = i + 1;
        }
        None
    }

    /// The value stored under `key`, if any.
    pub fn get(&self, key: &str) -> (r: Option<&T>)
        requires
            self.wf(),
        ensures
            match r {
                Some(v) => self@.contains_key(key@) && *v == self@[key@],
                None => !self@.contains_key(key@),
            },
    {
        match self.find(key) {
            Some(i) => {
                proof {
                    self.lemma_entry(i as int);
                }
                Some(&self.entries[i].1)
            },
            None => None,
        }
    }

    /// The number of entries whose key sorts before `key`.
    fn lower_bound(&self, key: &str) -> (i: usize)
        requires
            self.wf(),
        ensures
            i <= self.len_spec(),
            forall|j: int| 0 <= j < i ==> key_lt(#[trigger] self.key_at(j), key@),
            i < self.len_spec() ==> !key_lt(self.key_at(i as int), key@),
    {
        let mut i: usize = 0;
        while i < self.entries.len()
            invariant
                i <= self.len_spec(),
                forall|j: int| 0 <= j < i ==> key_lt(#[trigger] self.key_at(j), key@),
            decreases self.len_spec() - i,
        {
            if !str_less(self.entries[i].0.as_str(), key) {
                return i;
            }
            i = i + 1;
        }
        i
    }

    /// Stores `value` under `key`, replacing the value that was there.
    pub fn insert(&mut self, key: String, value: T)
        requires
            old(self).wf(),
        ensures
            final(self).wf(),
            final(self)@ == old(self)@.insert(key@, value),
    {
        let ghost k = key@;
        let i = self.lower_bound(key.as_str());
        let ghost before = *self;
        if i < self.entries.len() && str_eq(self.entries[i].0.as_str(), key.as_str()) {
            self.entries.remove(i);
            self.entries.insert(i, (key, value));
            proof {
                assert forall|j: int| 0 <= j < self.len_spec() && j != i implies #[trigger] self.key_at(
                    j,
                ) == before.key_at(j) && self.value_at(j) == before.value_at(j) by {}
                assert(self.key_at(i as int) == k);
                lemma_key_lt_irreflexive(k);
                assert forall|j: int, l: int| 0 <= j < l < self.len_spec() implies key_lt(
                    #[trigger] self.key_at(j),
                    #[trigger] self.key_at(l),
                ) by {
                    if j == i {
                        assert(before.key_at(j) == k);
                    } else if l == i {
                        assert(before.key_at(l) == k);
                    }
                }
                self.lemma_view_insert(before, i as int, k, value);
            }
        } else {
            self.entries.insert(i, (key, value));
            proof {
                assert forall|j: int| 0 <= j < i implies #[trigger] self.key_at(j) == before.key_at(j)
                    && self.value_at(j) == before.value_at(j) by {}
                assert forall|j: int| i < j < self.len_spec() implies #[trigger] self.key_at(j)
                    == before.key_at(j - 1) && self.value_at(j) == before.value_at(j - 1) by {}
                assert(self.key_at(i as int) == k);
                lemma_key_lt_irreflexive(k);
                if i < before.len_spec() {
                    lemma_key_lt_total(k, before.key_at(i as int));
                }
                assert forall|j: int| i <= j < before.len_spec() implies key_lt(
                    k,
                    #[trigger] before.key_at(j),
                ) by {
                    if j > i {
                        lemma_key_lt_transitive(k, before.key_at(i as int), before.key_at(j));
                    }
                }
                assert forall|j: int| 0 <= j < before.len_spec() implies #[trigger] before.key_at(j)
                    != k by {
                    if j >= i {
                        assert(key_lt(k, before.key_at(j)));
                    }
                }
                assert forall|j: int, l: int| 0 <= j < l < self.len_spec() implies key_lt(
                    #[trigger] self.key_at(j),
                    #[trigger] self.key_at(l),
                ) by {
                    if j < i && l > i {
                        lemma_key_lt_transitive(self.key_at(j), k, self.key_at(l));
                    } else if j < i && l == i {
                    } else if j == i {
                        assert(key_lt(k, before.key_at(l - 1)));
                    } else if j > i {
                        assert(key_lt(before.key_at(j - 1), before.key_at(l - 1)));
                    } else {
                        assert(key_lt(before.key_at(j), before.key_at(l)));
                    }
                }
                assert forall|j: int, l: int|
                    0 <= j < self.len_spec() && 0 <= l < self.len_spec() && j != l implies #[trigger] self.key_at(j)
                    != #[trigger] self.key_at(l) by {
                    if j < l {
                        assert(key_lt(self.key_at(j), self.key_at(l)));
                        lemma_key_lt_irreflexive(self.key_at(j));
                    } else {
                        assert(key_lt(self.key_at(l), self.key_at(j)));
                        lemma_key_lt_irreflexive(self.key_at(l));
                    }
                }
                self.lemma_view_insert_new(before, i as int, k, value);
            }
        }
    }

    proof fn lemma_view_insert(&self, before: Self, i: int, k: Seq<char>, value: T)
        requires
            self.wf(),
            before.wf(),
            0 <= i < before.len_spec(),
            self.len_spec() == before.len_spec(),
            before.key_at(i) == k,
            self.key_at(i) == k,
            self.value_at(i) == value,
            forall|j: int| 0 <= j < self.len_spec() && j != i ==> #[trigger] self.key_at(j) == before.key_at(j)
                && self.value_at(j) == before.value_at(j),
        ensures
            self@ == before@.insert(k, value),
    {
        assert forall|x: Seq<char>| self.has_key(x) == (before.has_key(x) || x == k) by {
            if self.has_key(x) {
                let j = choose|j: int| 0 <= j < self.len_spec() && #[trigger] self.key_at(j) == x;
                if j != i {
                    assert(before.key_at(j) == x);
                }
            }
            if before.has_key(x) {
                let j = choose|j: int| 0 <= j < before.len_spec() && #[trigger] before.key_at(j) == x;
                if j != i {
                    assert(self.key_at(j) == x);
                }
            }
            if x == k {
                assert(self.key_at(i) == x);
            }
        }
        assert forall|x: Seq<char>| #[trigger] self.has_key(x) implies self@[x] == before@.insert(k, value)[x] by {
            let j = choose|j: int| 0 <= j < self.len_spec() && #[trigger] self.key_at(j) == x;
            self.lemma_entry(j);
            if j != i {
                before.lemma_entry(j);
            }
        }
        assert(self@ =~= before@.insert(k, value));
    }

    proof fn lemma_view_insert_new(&self, before: Self, i: int, k: Seq<char>, value: T)
        requires
            self.wf(),
            before.wf(),
            0 <= i <= before.len_spec(),
            self.len_spec() == before.len_spec() + 1,
            self.key_at(i) == k,
            self.value_at(i) == value,
            forall|j: int| 0 <= j < i ==> #[trigger] self.key_at(j) == before.key_at(j) && self.value_at(j)
                == before.value_at(j),
            forall|j: int| i < j < self.len_spec() ==> #[trigger] self.key_at(j) == before.key_at(j - 1)
                && self.value_at(j) == before.value_at(j - 1),
        ensures
            self@ == before@.insert(k, value),
    {
        assert forall|x: Seq<char>| self.has_key(x) == (before.has_key(x) || x == k) by {
            if self.has_key(x) {
                let j = choose|j: int| 0 <= j < self.len_spec() && #[trigger] self.key_at(j) == x;
                if j < i {
                    assert(before.key_at(j) == x);
                } else if j > i {
                    assert(before.key_at(j - 1) == x);
                }
            }
            if before.has_key(x) {
                let j = choose|j: int| 0 <= j < before.len_spec() && #[trigger] before.key_at(j) == x;
                if j < i {
                    assert(self.key_at(j) == x);
                } else {
                    assert(self.key_at(j + 1) == x);
                }
            }
            if x == k {
                assert(self.key_at(i) == x);
            }
        }
        assert forall|x: Seq<char>| #[trigger] self.has_key(x) implies self@[x] == before@.insert(k, value)[x] by {
            let j = choose|j: int| 0 <= j < self.len_spec() && #[trigger] self.key_at(j) == x;
            self.lemma_entry(j);
            if j < i {
                before.lemma_entry(j);
            } else if j > i {
                before.lemma_entry(j - 1);
            }
        }
        assert(self@ =~= before@.insert(k, value));
    }
}

impl<T: Modeled> KeyMap<T> {
    /// Every value meets its own invariant.
    pub open spec fn all_inv(&self) -> bool {
        forall|k: Seq<char>| #[trigger] self@.contains_key(k) ==> self@[k].inv()
    }

    /// The map with each value replaced by its model.
    pub open spec fn model(&self) -> Map<Seq<char>, T::M> {
        self@.map_values(|v: T| v.model())
    }

    /// Adds every entry of `other`, whose values win over those already here.
    pub fn overlay(&mut self, other: &KeyMap<T>)
        requires
            old(self).wf(),
            old(self).all_inv(),
            other.wf(),
            other.all_inv(),
        ensures
            final(self).wf(),
            final(self).all_inv(),
            final(self).model() == old(self).model().union_prefer_right(other.model()),
    {
        let ghost start = self@;
        let mut i: usize = 0;
        while i < other.len()
            invariant
                self.wf(),
                self.all_inv(),
                other.wf(),
                other.all_inv(),
                i <= other.keys().len(),
                forall|k: Seq<char>|
                    #[trigger] self@.contains_key(k) <==> (start.contains_key(k) || exists|j: int|
                        0 <= j < i && other.keys()[j] == k),
                forall|j: int|
                    0 <= j < i ==> self@[#[trigger] other.keys()[j]].model() == other.values()[j].model(),
                forall|k: Seq<char>|
                    start.contains_key(k) && !(exists|j: int| 0 <= j < i && other.keys()[j] == k)
                        ==> self@[k].model() == #[trigger] start[k].model(),
            decreases other.keys().len() - i,
        {
            let key = other.key(i).clone();
            proof {
                other.lemma_distinct(i as int);
                other.lemma_entry(i as int);
            }
            let value = other.value(i).duplicate();
            self.insert(key, value);
            i = i + 1;
        }
        proof {
            let target = start.map_values(|v: T| v.model()).union_prefer_right(other.model());
            assert forall|k: Seq<char>| #[trigger] self.model().contains_key(k) == target.contains_key(k) by {
                if other@.contains_key(k) {
                    let j = other.index_of(k);
                    assert(other.keys()[j] == k);
                }
                if exists|j: int| 0 <= j < i && other.keys()[j] == k {
                    let j = choose|j: int| 0 <= j < i && other.keys()[j] == k;
                    other.lemma_entry(j);
                }
            }
            assert forall|k: Seq<char>| #[trigger] self.model().contains_key(k) implies self.model()[k]
                == target[k] by {
                if other@.contains_key(k) {
                    let j = other.index_of(k);
                    assert(other.keys()[j] == k);
                    other.lemma_entry(j);
                } else {
                    if exists|j: int| 0 <= j < i && other.keys()[j] == k {
                        let j = choose|j: int| 0 <= j < i && other.keys()[j] == k;
                        other.lemma_entry(j);
                    }
                }
            }
            assert(self.model() =~= target);
        }
    }
}

/// Strictly ascending sequences.
pub open spec fn ascending(s: Seq<Seq<char>>) -> bool {
    forall|i: int, j: int| 0 <= i < j < s.len() ==> key_lt(#[trigger] s[i], #[trigger] s[j])
}

/// Two strictly ascending sequences with the same items are equal.
pub proof fn lemma_ascending_unique(s: Seq<Seq<char>>, t: Seq<Seq<char>>)
    requires
        ascending(s),
        ascending(t),
        forall|x: Seq<char>| s.contains(x) <==> t.contains(x),
    ensures
        s == t,
    decreases s.len(),
{
    if s.len() == 0 {
        if t.len() > 0 {
            assert(t.contains(t[0]));
        }
        assert(s =~= t);
    } else {
        assert(s.contains(s[0]));
        let j = choose|j: int| 0 <= j < t.len() && t[j] == s[0];
        assert(t.contains(t[0]));
        let i = choose|i: int| 0 <= i < s.len() && s[i] == t[0];
        if j > 0 {
            assert(key_lt(t[0], t[j]));
            if i == 0 {
                lemma_key_lt_irreflexive(t[0]);
            } else {
                assert(key_lt(s[0], s[i]));
                lemma_key_lt_asymmetric(s[0], t[0]);
            }
        }
        assert(s[0] == t[0]);
        let s1 = s.drop_first();
        let t1 = t.drop_first();
        assert forall|x: Seq<char>| s1.contains(x) <==> t1.contains(x) by {
            if s1.contains(x) {
                let a = choose|a: int| 0 <= a < s1.len() && s1[a] == x;
                assert(s.contains(x)) by {
                    assert(s[a + 1] == x);
                }
                let b = choose|b: int| 0 <= b < t.len() && t[b] == x;
                if b == 0 {
                    assert(key_lt(s[0], s[a + 1]));
                    lemma_key_lt_irreflexive(x);
                }
                assert(t1[b - 1] == x);
            }
            if t1.contains(x) {
                let a = choose|a: int| 0 <= a < t1.len() && t1[a] == x;
                assert(t.contains(x)) by {
                    assert(t[a + 1] == x);
                }
                let b = choose|b: int| 0 <= b < s.len() && s[b] == x;
                if b == 0 {
                    assert(key_lt(t[0], t[a + 1]));
                    lemma_key_lt_irreflexive(x);
                }
                assert(s1[b - 1] == x);
            }
        }
        lemma_ascending_unique(s1, t1);
        assert(s =~= seq![s[0]] + s1);
        assert(t =~= seq![t[0]] + t1);
    }
}

/// The order of a well-formed map's entries is the ascending order of its
/// keys, whatever order they were inserted in: two maps with the same keys
/// list them alike.
pub proof fn lemma_key_order<T, U>(a: KeyMap<T>, b: KeyMap<U>)
    requires
        a.wf(),
        b.wf(),
        a@.dom() == b@.dom(),
    ensures
        ascending(a.keys()),
        a.keys() == b.keys(),
{
    assert forall|x: Seq<char>| a.keys().contains(x) <==> b.keys().contains(x) by {
        if a.keys().contains(x) {
            let i = choose|i: int| 0 <= i < a.keys().len() && a.keys()[i] == x;
            a.lemma_entry(i);
            assert(b@.dom().contains(x));
            let j = b.index_of(x);
            assert(b.keys()[j] == x);
        }
        if b.keys().contains(x) {
            let i = choose|i: int| 0 <= i < b.keys().len() && b.keys()[i] == x;
            b.lemma_entry(i);
            assert(a@.dom().contains(x));
            let j = a.index_of(x);
            assert(a.keys()[j] == x);
        }
    }
    lemma_ascending_unique(a.keys(), b.keys());
}

} // verus!

//! An insertion-ordered map from variable names to values.
//!
//! Variables of a problem are addressed by name, and the column that a
//! variable occupies follows from the order in which names were first seen.
//! `NameMap` therefore keeps its entries in insertion order and guarantees
//! that no name occurs twice.

use vstd::prelude::*;

verus! {

/// Maps names to values and remembers the order in which names were first
/// inserted.
#[derive(Clone, Debug)]
pub struct NameMap<T> {
    names: Vec<String>,
    values: Vec<T>,
}

/// In a sequence without duplicates an element is found at its own index.
pub proof fn lemma_index_of_unique<A>(s: Seq<A>, i: int)
    requires
        s.no_duplicates(),
        0 <= i < s.len(),
    ensures
        s.index_of(s[i]) == i,
        s.contains(s[i]),
{
    let j = s.index_of(s[i]);
    assert(0 <= j < s.len() && s[j] == s[i]);
}

/// Appending a new element keeps a sequence free of duplicates.
pub proof fn lemma_push_no_duplicates<A>(s: Seq<A>, a: A)
    requires
        s.no_duplicates(),
        !s.contains(a),
    ensures
        s.push(a).no_duplicates(),
{
    let t = s.push(a);
    assert forall|i: int, j: int| 0 <= i < t.len() && 0 <= j < t.len() && i != j implies t[i]
        != t[j] by {
        if i < s.len() && j < s.len() {
        } else if i < s.len() {
            assert(s[i] == t[i]);
        } else {
            assert(s[j] == t[j]);
        }
    }
}

/// Removing an element keeps a sequence free of duplicates, and the removed
/// element is gone.
pub proof fn lemma_remove_no_duplicates<A>(s: Seq<A>, i: int)
    requires
        s.no_duplicates(),
        0 <= i < s.len(),
    ensures
        s.remove(i).no_duplicates(),
        !s.remove(i).contains(s[i]),
        forall|a: A| a != s[i] ==> (s.remove(i).contains(a) <==> s.contains(a)),
{
    let t = s.remove(i);
    assert forall|a: int, b: int| 0 <= a < t.len() && 0 <= b < t.len() && a != b implies t[a]
        != t[b] by {
        let a0 = if a < i { a } else { a + 1 };
        let b0 = if b < i { b } else { b + 1 };
        assert(t[a] == s[a0]);
        assert(t[b] == s[b0]);
    }
    assert forall|k: int| 0 <= k < t.len() implies t[k] != s[i] by {
        let k0 = if k < i { k } else { k + 1 };
        assert(t[k] == s[k0]);
    }
    assert forall|a: A| a != s[i] implies (t.contains(a) <==> s.contains(a)) by {
        if t.contains(a) {
            let k = choose|k: int| 0 <= k < t.len() && t[k] == a;
            let k0 = if k < i { k } else { k + 1 };
            assert(s[k0] == a);
        }
        if s.contains(a) {
            let k = choose|k: int| 0 <= k < s.len() && s[k] == a;
            let k1 = if k < i { k } else { k - 1 };
            assert(t[k1] == a);
        }
    }
}

impl<T> NameMap<T> {
    /// The names, in insertion order.
    pub closed spec fn names(&self) -> Seq<Seq<char>> {
        Seq::new(self.names@.len(), |i: int| self.names@[i]@)
    }

    /// The values, each at the position of its name.
    pub closed spec fn values(&self) -> Seq<T> {
        self.values@
    }

    /// One value per name, and no name twice.
    pub open spec fn wf(&self) -> bool {
        &&& self.names().len() == self.values().len()
        &&& self.names().no_duplicates()
    }

    /// Whether `name` has an entry.
    pub open spec fn contains(&self, name: Seq<char>) -> bool {
        self.names().contains(name)
    }

    /// Position of `name` in insertion order; meaningful where
    /// `contains(name)`.
    pub open spec fn index_of(&self, name: Seq<char>) -> int {
        self.names().index_of(name)
    }

    /// The value stored under `name`; meaningful where `contains(name)`.
    pub open spec fn value_of(&self, name: Seq<char>) -> T {
        self.values()[self.index_of(name)]
    }

    /// An empty map.
    pub fn new() -> (r: Self)
        ensures
            r.wf(),
            r.names() == Seq::<Seq<char>>::empty(),
            r.values() == Seq::<T>::empty(),
    {
        let r = NameMap { names: Vec::new(), values: Vec::new() };
        assert(r.names() =~= Seq::<Seq<char>>::empty());
        r
    }

    /// Number of entries.
    pub fn len(&self) -> (n: usize)
        requires
            self.wf(),
        ensures
            n == self.names().len(),
            n == self.values().len(),
    {
        self.names.len()
    }

    /// Whether the map has no entry.
    pub fn is_empty(&self) -> (b: bool)
        requires
            self.wf(),
        ensures
            b == (self.names().len() == 0),
    {
        self.names.len() == 0
    }

    /// Position of `name` in insertion order, if it has an entry.
    pub fn position(&self, name: &str) -> (r: Option<usize>)
        requires
            self.wf(),
        ensures
            r is Some <==> self.contains(name@),
            r matches Some(i) ==> i as int == self.index_of(name@) && i < self.names().len(),
    {
        let owned = name.to_owned();
        let n = self.names.len();
        let mut i: usize = 0;
        while i < n
            invariant
                i <= n,
                n == self.names@.len(),
                owned@ == name@,
                self.wf(),
                forall|k: int| 0 <= k < i ==> self.names()[k] != name@,
            decreases n - i,
        {
            if self.names[i] == owned {
                proof {
                    assert(self.names()[i as int] == name@);
                    lemma_index_of_unique(self.names(), i as int);
                }
                return Some(i);
            }
            i += 1;
        }
        None
    }

    /// Whether `name` has an entry.
    pub fn contains_key(&self, name: &str) -> (b: bool)
        requires
            self.wf(),
        ensures
            b == self.contains(name@),
    {
        self.position(name).is_some()
    }

    /// The value stored under `name`.
    pub fn get(&self, name: &str) -> (r: Option<&T>)
        requires
            self.wf(),
        ensures
            r is Some <==> self.contains(name@),
            r matches Some(v) ==> *v == self.value_of(name@),
    {
        match self.position(name) {
            Some(i) => Some(&self.values[i]),
            None => None,
        }
    }

    /// The name at position `i`.
    pub fn name(&self, i: usize) -> (r: &String)
        requires
            self.wf(),
            i < self.names().len(),
        ensures
            r@ == self.names()[i as int],
    {
        &self.names[i]
    }

    /// The value at position `i`.
    pub fn value(&self, i: usize) -> (r: &T)
        requires
            self.wf(),
            i < self.values().len(),
        ensures
            *r == self.values()[i as int],
    {
        &self.values[i]
    }

    /// The value at position `i`, for updating in place.
    pub fn value_mut(&mut self, i: usize) -> (r: &mut T)
        requires
            old(self).wf(),
            i < old(self).values().len(),
        ensures
            *r == old(self).values()[i as int],
            final(self).values() == old(self).values().update(i as int, *final(r)),
            final(self).names() == old(self).names(),
            final(self).wf(),
    {
        &mut self.values[i]
    }

    /// Stores `value` under `name`. A name that is already present keeps its
    /// position and hands back its previous value; a new name goes to the
    /// end.
    pub fn insert(&mut self, name: &str, value: T) -> (r: Option<T>)
        requires
            old(self).wf(),
        ensures
            final(self).wf(),
            old(self).contains(name@) ==> {
                &&& final(self).names() == old(self).names()
                &&& final(self).values() == old(self).values().update(
                    old(self).index_of(name@),
                    value,
                )
                &&& r == Some(old(self).value_of(name@))
            },
            !old(self).contains(name@) ==> {
                &&& final(self).names() == old(self).names().push(name@)
                &&& final(self).values() == old(self).values().push(value)
                &&& r is None
            },
    {
        match self.position(name) {
            Some(i) => {
                self.values.push(value);
                let previous = self.values.swap_remove(i);
                assert(self.values@ =~= old(self).values().update(i as int, value));
                assert(self.names() == old(self).names());
                Some(previous)
            },
            None => {
                self.names.push(name.to_owned());
                self.values.push(value);
                proof {
                    assert(self.names() =~= old(self).names().push(name@));
                    lemma_push_no_duplicates(old(self).names(), name@);
                }
                None
            },
        }
    }

    /// Appends an entry for a name that the map does not hold yet.
    pub fn push_new(&mut self, name: &str, value: T)
        requires
            old(self).wf(),
            !old(self).contains(name@),
        ensures
            final(self).wf(),
            final(self).names() == old(self).names().push(name@),
            final(self).values() == old(self).values().push(value),
    {
        self.names.push(name.to_owned());
        self.values.push(value);
        proof {
            assert(self.names() =~= old(self).names().push(name@));
            lemma_push_no_duplicates(old(self).names(), name@);
        }
    }

    /// Whether `self` and `other` agree on every name but `name`.
    pub open spec fn agrees_except(&self, other: &Self, name: Seq<char>) -> bool {
        forall|n: Seq<char>|
            n != name ==> (self.contains(n) <==> other.contains(n)) && (self.contains(n)
                ==> self.value_of(n) == other.value_of(n))
    }

    /// Removes the entry of `name` and hands back its value. The other
    /// entries keep their order.
    pub fn remove(&mut self, name: &str) -> (r: Option<T>)
        requires
            old(self).wf(),
        ensures
            final(self).wf(),
            old(self).contains(name@) ==> {
                &&& final(self).names() == old(self).names().remove(old(self).index_of(name@))
                &&& final(self).values() == old(self).values().remove(old(self).index_of(name@))
                &&& r == Some(old(self).value_of(name@))
                &&& !final(self).contains(name@)
            },
            !old(self).contains(name@) ==> {
                &&& final(self).names() == old(self).names()
                &&& final(self).values() == old(self).values()
                &&& r is None
            },
    {
        match self.position(name) {
            Some(i) => {
                self.names.remove(i);
                let value = self.values.remove(i);
                proof {
                    assert(self.names() =~= old(self).names().remove(i as int));
                    lemma_remove_no_duplicates(old(self).names(), i as int);
                }
                Some(value)
            },
            None => None,
        }
    }
}

/// Replacing the value at one position changes the lookup of that
/// position's name and of no other.
pub proof fn lemma_update_lookup<T>(before: NameMap<T>, after: NameMap<T>, i: int, value: T)
    requires
        before.wf(),
        0 <= i < before.names().len(),
        after.names() == before.names(),
        after.values() == before.values().update(i, value),
    ensures
        after.wf(),
        after.contains(before.names()[i]),
        after.value_of(before.names()[i]) == value,
        after.agrees_except(&before, before.names()[i]),
{
    lemma_index_of_unique(before.names(), i);
    assert forall|n: Seq<char>| n != before.names()[i] && after.contains(n) implies after.value_of(
        n,
    ) == before.value_of(n) by {
        let j = before.index_of(n);
        assert(0 <= j < before.names().len() && before.names()[j] == n);
    }
}

/// Appending an entry for a new name changes the lookup of that name and of
/// no other.
pub proof fn lemma_push_lookup<T>(before: NameMap<T>, after: NameMap<T>, name: Seq<char>, value: T)
    requires
        before.wf(),
        !before.contains(name),
        after.names() == before.names().push(name),
        after.values() == before.values().push(value),
    ensures
        after.wf(),
        after.contains(name),
        after.value_of(name) == value,
        after.index_of(name) == before.names().len(),
        after.agrees_except(&before, name),
        forall|n: Seq<char>| before.contains(n) ==> after.index_of(n) == before.index_of(n),
{
    lemma_push_no_duplicates(before.names(), name);
    let len = before.names().len() as int;
    assert(after.names()[len] == name);
    lemma_index_of_unique(after.names(), len);
    assert forall|n: Seq<char>| n != name implies (after.contains(n) <==> before.contains(n)) && (
    after.contains(n) ==> after.value_of(n) == before.value_of(n)) by {
        if before.contains(n) {
            let j = before.index_of(n);
            assert(0 <= j < len && before.names()[j] == n);
            assert(after.names()[j] == n);
            lemma_index_of_unique(after.names(), j);
        }
        if after.contains(n) {
            let j = after.index_of(n);
            assert(0 <= j < after.names().len() && after.names()[j] == n);
            assert(before.names()[j] == n);
        }
    }
    assert forall|n: Seq<char>| before.contains(n) implies after.index_of(n) == before.index_of(
        n,
    ) by {
        let j = before.index_of(n);
        assert(0 <= j < len && before.names()[j] == n);
        assert(after.names()[j] == n);
        lemma_index_of_unique(after.names(), j);
    }
}

/// Removing the entry of a name changes the lookup of that name and of no
/// other.
pub proof fn lemma_remove_lookup<T>(before: NameMap<T>, after: NameMap<T>, name: Seq<char>)
    requires
        before.wf(),
        before.contains(name),
        after.names() == before.names().remove(before.index_of(name)),
        after.values() == before.values().remove(before.index_of(name)),
    ensures
        after.wf(),
        !after.contains(name),
        after.agrees_except(&before, name),
{
    let i = before.index_of(name);
    assert(0 <= i < before.names().len() && before.names()[i] == name);
    lemma_remove_no_duplicates(before.names(), i);
    assert forall|n: Seq<char>| n != name && after.contains(n) implies after.value_of(n)
        == before.value_of(n) by {
        let j = after.index_of(n);
        assert(0 <= j < after.names().len() && after.names()[j] == n);
        let j0 = if j < i { j } else { j + 1 };
        assert(before.names()[j0] == n);
        lemma_index_of_unique(before.names(), j0);
        assert(after.values()[j] == before.values()[j0]);
    }
}

} // verus!

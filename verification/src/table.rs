//! Values under string keys, and sorted lists of values.
use vstd::prelude::*;

use crate::text::same;

verus! {

// ---------------------------------------------------------------------------
// Tables
// ---------------------------------------------------------------------------

/// A map from texts to values that remembers the order in which its keys were
/// first bound.
pub struct Table<T> {
    entries: Vec<(String, T)>,
}

impl<T> Table<T> {
    /// No key occurs twice.
    #[verifier::type_invariant]
    spec fn distinct(self) -> bool {
        forall|i: int, j: int|
            0 <= i < j < self.entries@.len() ==> (#[trigger] self.entries@[i]).0@ != (#[trigger] self.entries@[j]).0@
    }

    /// The keys in the order in which they were first bound.
    pub closed spec fn order(self) -> Seq<Seq<char>> {
        self.entries@.map_values(|e: (String, T)| e.0@)
    }

    /// The values by their keys.
    pub closed spec fn view(&self) -> Map<Seq<char>, T> {
        Map::new(
            |k: Seq<char>| exists|i: int| 0 <= i < self.entries@.len() && (#[trigger] self.entries@[i]).0@ == k,
            |k: Seq<char>| self.entries@[choose|i: int| 0 <= i < self.entries@.len() && (#[trigger] self.entries@[i]).0@ == k].1,
        )
    }

    proof fn lemma_at(self, i: int)
        requires
            self.distinct(),
            0 <= i < self.entries@.len(),
        ensures
            self@.dom().contains(self.entries@[i].0@),
            self@[self.entries@[i].0@] == self.entries@[i].1,
    {
        let key = self.entries@[i].0@;
        let k = choose|k: int| 0 <= k < self.entries@.len() && (#[trigger] self.entries@[k]).0@ == key;
        assert(self.entries@[i].0@ == key);
        assert(k == i);
    }

    proof fn lemma_finite(self)
        requires
            self.distinct(),
        ensures
            self@.dom() == self.order().to_set(),
            self@.dom().finite(),
            self.order().no_duplicates(),
            self@.dom().len() == self.entries@.len(),
    {
        let order = self.order();
        assert forall|k: Seq<char>| self@.dom().contains(k) == order.to_set().contains(k) by {
            if self@.dom().contains(k) {
                let i = choose|i: int| 0 <= i < self.entries@.len() && (#[trigger] self.entries@[i]).0@ == k;
                assert(order[i] == k);
            }
            if order.contains(k) {
                let i = choose|i: int| 0 <= i < order.len() && order[i] == k;
                assert(self.entries@[i].0@ == k);
            }
        }
        assert(self@.dom() =~= order.to_set());
        assert forall|i: int, j: int| 0 <= i < order.len() && 0 <= j < order.len() && i != j implies order[i]
            != order[j] by {
            assert(order[i] == self.entries@[i].0@ && order[j] == self.entries@[j].0@);
        }
        order.unique_seq_to_set();
    }

    /// An empty table.
    pub fn new() -> (r: Self)
        ensures
            r@ == Map::<Seq<char>, T>::empty(),
            r.order() == Seq::<Seq<char>>::empty(),
    {
        let r = Table { entries: Vec::new() };
        proof {
            assert(r@ =~= Map::<Seq<char>, T>::empty());
            assert(r.order() =~= Seq::<Seq<char>>::empty());
        }
        r
    }

    fn position(&self, key: &str) -> (r: Option<usize>)
        ensures
            match r {
                Some(i) => i < self.entries@.len() && self.entries@[i as int].0@ == key@,
                None => !self@.dom().contains(key@),
            },
    {
        let mut i: usize = 0;
        while i < self.entries.len()
            invariant
                i <= self.entries@.len(),
                forall|j: int| 0 <= j < i ==> (#[trigger] self.entries@[j]).0@ != key@,
            decreases self.entries@.len() - i,
        {
            if same(self.entries[i].0.as_str(), key) {
                return Some(i);
            }
            i += 1;
        }
        None
    }

    /// The number of keys.
    pub fn len(&self) -> (r: usize)
        ensures
            self@.dom().finite(),
            r == self@.dom().len(),
            r == self.order().len(),
            self@.dom() == self.order().to_set(),
            self.order().no_duplicates(),
    {
        proof {
            use_type_invariant(self);
            self.lemma_finite();
        }
        self.entries.len()
    }

    /// Whether the key is bound.
    pub fn has(&self, key: &str) -> (r: bool)
        ensures
            r == self@.dom().contains(key@),
    {
        match self.position(key) {
            Some(i) => {
                proof {
                    use_type_invariant(self);
                    self.lemma_at(i as int);
                }
                true
            },
            None => false,
        }
    }

    /// The value under a key.
    pub fn get(&self, key: &str) -> (r: Option<&T>)
        ensures
            match r {
                Some(v) => self@.dom().contains(key@) && *v == self@[key@],
                None => !self@.dom().contains(key@),
            },
    {
        match self.position(key) {
            Some(i) => {
                proof {
                    use_type_invariant(self);
                    self.lemma_at(i as int);
                }
                Some(&self.entries[i].1)
            },
            None => None,
        }
    }

    /// The key at a position of the order.
    pub fn key_at(&self, i: usize) -> (r: &str)
        requires
            i < self.order().len(),
        ensures
            r@ == self.order()[i as int],
            self@.dom().contains(r@),
    {
        proof {
            use_type_invariant(self);
            self.lemma_at(i as int);
        }
        self.entries[i].0.as_str()
    }

    /// The value at a position of the order.
    pub fn value_at(&self, i: usize) -> (r: &T)
        requires
            i < self.order().len(),
        ensures
            self@.dom().contains(self.order()[i as int]),
            *r == self@[self.order()[i as int]],
    {
        proof {
            use_type_invariant(self);
            self.lemma_at(i as int);
        }
        &self.entries[i].1
    }

    /// Binds a key to a value; the value that was there is dropped.
    pub fn insert(&mut self, key: String, value: T)
        ensures
            final(self)@ == old(self)@.insert(key@, value),
            final(self).order() == if old(self)@.dom().contains(key@) {
                old(self).order()
            } else {
                old(self).order().push(key@)
            },
    {
        proof {
            use_type_invariant(&*self);
        }
        let ghost before = *self;
        let ghost k = key@;
        let at = self.position(key.as_str());
        let mut entries: Vec<(String, T)> = Vec::new();
        std::mem::swap(&mut entries, &mut self.entries);
        match at {
            Some(i) => {
                entries.set(i, (key, value));
                proof {
                    before.lemma_at(i as int);
                }
            },
            None => {
                entries.push((key, value));
            },
        }
        self.entries = entries;
        proof {
            let after = *self;
            assert forall|q: Seq<char>| after@.dom().contains(q) == before@.insert(k, value).dom().contains(q) by {
                if after@.dom().contains(q) {
                    let i = choose|i: int| 0 <= i < after.entries@.len() && (#[trigger] after.entries@[i]).0@ == q;
                    if i < before.entries@.len() {
                        assert(before.entries@[i].0@ == q);
                    }
                }
                if before@.dom().contains(q) {
                    let i = choose|i: int| 0 <= i < before.entries@.len() && (#[trigger] before.entries@[i]).0@ == q;
                    assert(after.entries@[i].0@ == q);
                }
                if q == k && !before@.dom().contains(k) {
                    assert(after.entries@[before.entries@.len() as int].0@ == k);
                }
            }
            assert forall|q: Seq<char>| after@.dom().contains(q) implies after@[q] == before@.insert(k, value)[q] by {
                let i = choose|i: int| 0 <= i < after.entries@.len() && (#[trigger] after.entries@[i]).0@ == q;
                after.lemma_at(i);
                if i < before.entries@.len() {
                    before.lemma_at(i);
                }
            }
            assert(after@ =~= before@.insert(k, value));
            if before@.dom().contains(k) {
                assert(after.order() =~= before.order());
            } else {
                assert(after.order() =~= before.order().push(k));
            }
        }
    }

    /// Removes a key and gives its value back.
    pub fn remove(&mut self, key: &str) -> (r: Option<T>)
        ensures
            final(self)@ == old(self)@.remove(key@),
            match r {
                Some(v) => old(self)@.dom().contains(key@) && v == old(self)@[key@],
                None => !old(self)@.dom().contains(key@) && final(self).order() == old(self).order(),
            },
            final(self).order() == without(old(self).order(), key@),
    {
        proof {
            use_type_invariant(&*self);
        }
        let ghost before = *self;
        match self.position(key) {
            None => {
                proof {
                    assert(before@.remove(key@) =~= before@);
                    lemma_without_absent(before.order(), key@);
                }
                None
            },
            Some(i) => {
                let mut entries: Vec<(String, T)> = Vec::new();
                std::mem::swap(&mut entries, &mut self.entries);
                let (_, v) = entries.remove(i);
                self.entries = entries;
                proof {
                    let after = *self;
                    before.lemma_at(i as int);
                    assert forall|q: Seq<char>| after@.dom().contains(q) == before@.remove(key@).dom().contains(q) by {
                        if after@.dom().contains(q) {
                            let j = choose|j: int| 0 <= j < after.entries@.len() && (#[trigger] after.entries@[j]).0@ == q;
                            let b = if j < i { j } else { j + 1 };
                            assert(before.entries@[b].0@ == q);
                            assert(before.entries@[i as int].0@ != before.entries@[b].0@);
                        }
                        if before@.dom().contains(q) && q != key@ {
                            let b = choose|b: int| 0 <= b < before.entries@.len() && (#[trigger] before.entries@[b]).0@ == q;
                            let j = if b < i { b } else { b - 1 };
                            assert(after.entries@[j].0@ == q);
                        }
                    }
                    assert forall|q: Seq<char>| after@.dom().contains(q) implies after@[q] == before@.remove(
                        key@,
                    )[q] by {
                        let j = choose|j: int| 0 <= j < after.entries@.len() && (#[trigger] after.entries@[j]).0@ == q;
                        let b = if j < i { j } else { j + 1 };
                        after.lemma_at(j);
                        before.lemma_at(b);
                    }
                    assert(after@ =~= before@.remove(key@));
                    assert(after.order() =~= before.order().remove(i as int));
                    lemma_without_one(before.order(), i as int, key@);
                }
                Some(v)
            },
        }
    }

    /// Takes all keys and values out, in order.
    pub fn take_entries(&mut self) -> (r: Vec<(String, T)>)
        ensures
            final(self)@ == Map::<Seq<char>, T>::empty(),
            final(self).order() == Seq::<Seq<char>>::empty(),
            entries_of(r@, old(self).order(), old(self)@),
    {
        proof {
            use_type_invariant(&*self);
        }
        let ghost before = *self;
        let mut entries: Vec<(String, T)> = Vec::new();
        std::mem::swap(&mut entries, &mut self.entries);
        proof {
            assert(self@ =~= Map::<Seq<char>, T>::empty());
            assert(self.order() =~= Seq::<Seq<char>>::empty());
            before.lemma_finite();
            assert forall|i: int| 0 <= i < entries@.len() implies (#[trigger] entries@[i]).0@ == before.order()[i]
                && entries@[i].1 == before@[before.order()[i]] by {
                before.lemma_at(i);
            }
        }
        entries
    }

    /// References to all values, in order.
    pub fn refs(&self) -> (r: Vec<&T>)
        ensures
            self@.dom().finite(),
            self@.dom() == self.order().to_set(),
            self.order().no_duplicates(),
            r@.len() == self.order().len(),
            r@.len() == self@.dom().len(),
            forall|i: int| 0 <= i < r@.len() ==> *(#[trigger] r@[i]) == self@[self.order()[i]],
    {
        let n: usize = self.len();
        let mut out: Vec<&T> = Vec::new();
        let mut i: usize = 0;
        while i < n
            invariant
                i <= n,
                n == self.order().len(),
                out@.len() == i,
                forall|k: int| 0 <= k < i ==> *(#[trigger] out@[k]) == self@[self.order()[k]],
            decreases n - i,
        {
            out.push(self.value_at(i));
            i += 1;
        }
        out
    }

    /// Takes the value of a bound key out and puts another in its place.
    pub fn replace(&mut self, key: &str, value: T)
        requires
            old(self)@.dom().contains(key@),
        ensures
            final(self)@ == old(self)@.insert(key@, value),
            final(self).order() == old(self).order(),
    {
        self.insert(key.to_owned(), value);
    }
}

/// The entries are the keys of a table, in order, with their values.
pub open spec fn entries_of<T>(e: Seq<(String, T)>, order: Seq<Seq<char>>, m: Map<Seq<char>, T>) -> bool {
    &&& e.len() == order.len()
    &&& order.no_duplicates()
    &&& m.dom() == order.to_set()
    &&& forall|i: int|
        0 <= i < e.len() ==> (#[trigger] e[i]).0@ == order[i] && m.dom().contains(order[i]) && e[i].1 == m[order[i]]
}

/// The keys but for one.
pub open spec fn without(s: Seq<Seq<char>>, key: Seq<char>) -> Seq<Seq<char>>
    decreases s.len(),
{
    if s.len() == 0 {
        s
    } else if s.last() == key {
        without(s.drop_last(), key)
    } else {
        without(s.drop_last(), key).push(s.last())
    }
}

proof fn lemma_without_absent(s: Seq<Seq<char>>, key: Seq<char>)
    requires
        forall|i: int| 0 <= i < s.len() ==> #[trigger] s[i] != key,
    ensures
        without(s, key) == s,
    decreases s.len(),
{
    if s.len() > 0 {
        lemma_without_absent(s.drop_last(), key);
        assert(s.drop_last().push(s.last()) =~= s);
    }
}

proof fn lemma_without_one(s: Seq<Seq<char>>, i: int, key: Seq<char>)
    requires
        0 <= i < s.len(),
        s[i] == key,
        forall|a: int, b: int| 0 <= a < b < s.len() ==> #[trigger] s[a] != #[trigger] s[b],
    ensures
        without(s, key) == s.remove(i),
    decreases s.len(),
{
    if i == s.len() - 1 {
        lemma_without_absent(s.drop_last(), key);
        assert(s.remove(i) =~= s.drop_last());
    } else {
        lemma_without_one(s.drop_last(), i, key);
        assert(s[i] != s.last());
        assert(s.remove(i) =~= s.drop_last().remove(i).push(s.last()));
    }
}

// ---------------------------------------------------------------------------
// Sorted lists
// ---------------------------------------------------------------------------

/// Values that are listed in an order; which of two values that neither comes
/// before the other stands first is left open.
pub trait Ranked: Sized {
    /// The first value comes before the second.
    spec fn comes_before(a: Self, b: Self) -> bool;

    proof fn order_is_strict(a: Self, b: Self, c: Self)
        ensures
            !(Self::comes_before(a, b) && Self::comes_before(b, a)),
            Self::comes_before(a, b) && Self::comes_before(b, c) ==> Self::comes_before(a, c),
    ;

    /// Whether this value comes before the other.
    fn ranks_before(&self, other: &Self) -> (r: bool)
        ensures
            r == Self::comes_before(*self, *other),
    ;
}

/// No later value comes before an earlier one.
pub open spec fn sorted<A: Ranked>(s: Seq<A>) -> bool {
    forall|i: int, j: int| 0 <= i < j < s.len() ==> !A::comes_before(#[trigger] s[j], #[trigger] s[i])
}

/// Puts a value at its place in a sorted list, behind those that it does not
/// come before.
fn place<A: Ranked>(v: &mut Vec<A>, x: A)
    requires
        sorted(old(v)@),
    ensures
        sorted(final(v)@),
        final(v)@.to_multiset() == old(v)@.to_multiset().insert(x),
        final(v)@.len() == old(v)@.len() + 1,
{
    let ghost before = v@;
    let mut i: usize = 0;
    while i < v.len() && !x.ranks_before(&v[i])
        invariant
            i <= v@.len(),
            v@ == before,
            forall|j: int| 0 <= j < i ==> !A::comes_before(x, #[trigger] v@[j]),
        decreases v@.len() - i,
    {
        i += 1;
    }
    v.insert(i, x);
    proof {
        before.to_multiset_ensures();
        v@.to_multiset_ensures();
        lemma_insert_multiset(before, i as int, x);
        assert forall|a: int, b: int| 0 <= a < b < v@.len() implies !A::comes_before(
            #[trigger] v@[b],
            #[trigger] v@[a],
        ) by {
            if a == i {
                assert(v@[b] == before[b - 1]);
                if A::comes_before(v@[b], x) {
                    A::order_is_strict(before[b - 1], x, before[i as int]);
                    A::order_is_strict(x, before[i as int], x);
                    if b - 1 > i {
                        assert(!A::comes_before(before[b - 1], before[i as int]));
                    } else {
                        A::order_is_strict(before[b - 1], x, x);
                    }
                }
            } else if b == i {
                assert(v@[a] == before[a]);
            } else {
                let a1 = if a < i { a } else { a - 1 };
                let b1 = if b < i { b } else { b - 1 };
                assert(v@[a] == before[a1] && v@[b] == before[b1]);
            }
        }
    }
}

proof fn lemma_insert_multiset<A>(s: Seq<A>, i: int, x: A)
    requires
        0 <= i <= s.len(),
    ensures
        s.insert(i, x).to_multiset() == s.to_multiset().insert(x),
{
    vstd::seq_lib::to_multiset_insert(s, i, x);
}

/// The values in their order.
pub fn sort<A: Ranked>(v: Vec<A>) -> (r: Vec<A>)
    ensures
        sorted(r@),
        r@.to_multiset() == v@.to_multiset(),
        r@.len() == v@.len(),
{
    let mut rest = v;
    let mut out: Vec<A> = Vec::new();
    let ghost all = v@;
    proof {
        out@.to_multiset_ensures();
        rest@.to_multiset_ensures();
        assert(out@.to_multiset().add(rest@.to_multiset()) =~= all.to_multiset());
    }
    while rest.len() > 0
        invariant
            sorted(out@),
            out@.len() + rest@.len() == all.len(),
            out@.to_multiset().add(rest@.to_multiset()) == all.to_multiset(),
        decreases rest@.len(),
    {
        let ghost o = out@;
        let ghost q = rest@;
        let x = rest.remove(0);
        place(&mut out, x);
        proof {
            q.to_multiset_ensures();
            assert(rest@ =~= q.remove(0));
            assert(q.to_multiset() =~= rest@.to_multiset().insert(x));
            assert(out@.to_multiset().add(rest@.to_multiset()) =~= o.to_multiset().add(q.to_multiset()));
        }
    }
    proof {
        rest@.to_multiset_ensures();
        assert(rest@ =~= Seq::<A>::empty());
        assert(out@.to_multiset() =~= all.to_multiset());
    }
    out
}

/// A reordering of distinct values holds the same values, each once.
pub proof fn lemma_permuted<A>(u: Seq<A>, r: Seq<A>)
    requires
        u.no_duplicates(),
        u.to_multiset() == r.to_multiset(),
    ensures
        r.no_duplicates(),
        forall|x: A| #[trigger] u.contains(x) <==> r.contains(x),
        forall|x: A| u.contains(x) <==> #[trigger] r.contains(x),
{
    u.to_multiset_ensures();
    r.to_multiset_ensures();
    u.lemma_multiset_has_no_duplicates();
    r.lemma_multiset_has_no_duplicates_conv();
    assert forall|x: A| #[trigger] u.contains(x) <==> r.contains(x) by {
        assert(u.contains(x) <==> u.to_multiset().count(x) > 0);
        assert(r.contains(x) <==> r.to_multiset().count(x) > 0);
    }
}

/// Some key is bound to the value.
pub open spec fn has_value<T>(m: Map<Seq<char>, T>, v: T) -> bool {
    exists|k: Seq<char>| #[trigger] m.dom().contains(k) && v == m[k]
}

/// The list holds the values of a table, each once, in their order.
pub open spec fn lists<T>(r: Seq<&T>, m: Map<Seq<char>, T>) -> bool {
    &&& r.len() == m.dom().len()
    &&& forall|k: Seq<char>| #[trigger] m.dom().contains(k) ==> exists|i: int| 0 <= i < r.len() && *(#[trigger] r[i]) == m[k]
    &&& forall|i: int| 0 <= i < r.len() ==> has_value(m, *(#[trigger] r[i]))
}

/// The values of a table in their order.
pub fn listing<'a, T>(table: &'a Table<T>) -> (r: Vec<&'a T>) where &'a T: Ranked
    ensures
        sorted(r@),
        lists(r@, table@),
{
    let u = table.refs();
    let r = sort(u);
    proof {
        r@.to_multiset_ensures();
        u@.to_multiset_ensures();
        assert forall|k: Seq<char>| #[trigger] table@.dom().contains(k) implies exists|i: int|
            0 <= i < r@.len() && *(#[trigger] r@[i]) == table@[k] by {
            let j = choose|j: int| 0 <= j < table.order().len() && table.order()[j] == k;
            assert(u@.contains(u@[j]));
            assert(u@.to_multiset().count(u@[j]) > 0);
            assert(r@.to_multiset().count(u@[j]) > 0);
            assert(r@.contains(u@[j]));
            let i = choose|i: int| 0 <= i < r@.len() && r@[i] == u@[j];
            assert(*r@[i] == table@[k]);
        }
        assert forall|i: int| 0 <= i < r@.len() implies has_value(table@, *(#[trigger] r@[i])) by {
            assert(r@.contains(r@[i]));
            assert(r@.to_multiset().count(r@[i]) > 0);
            assert(u@.to_multiset().count(r@[i]) > 0);
            assert(u@.contains(r@[i]));
            let j = choose|j: int| 0 <= j < u@.len() && u@[j] == r@[i];
            let k = table.order()[j];
            assert(table.order().to_set().contains(k));
            assert(table@.dom().contains(k));
            assert(*r@[i] == table@[k]);
        }
    }
    r
}

} // verus!

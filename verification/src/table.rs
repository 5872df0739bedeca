//! A table of values keyed by name, kept in insertion order with each name
//! present at most once. Inserting under a name already present replaces its
//! value in place.

use vstd::prelude::*;
use crate::text::str_equal;

verus! {

/// No two items share a name.
pub open spec fn distinct_keys<T>(s: Seq<(Seq<char>, T)>) -> bool {
    forall|i: int, j: int| 0 <= i < s.len() && 0 <= j < s.len() && i != j ==> s[i].0 != s[j].0
}

/// The map that inserting the items one after the other gives.
pub open spec fn map_of<T>(s: Seq<(Seq<char>, T)>) -> Map<Seq<char>, T>
    decreases s.len(),
{
    if s.len() == 0 {
        Map::empty()
    } else {
        map_of(s.drop_last()).insert(s.last().0, s.last().1)
    }
}

/// The names of the items, in order.
pub open spec fn names_of<T>(s: Seq<(Seq<char>, T)>) -> Seq<Seq<char>> {
    s.map_values(|e: (Seq<char>, T)| e.0)
}

/// Name-keyed table.
#[derive(Debug)]
pub struct VmTable<V: View> {
    entries: Vec<(String, V)>,
}

impl<V: View> VmTable<V> {
    /// The items, in order, by their views.
    pub closed spec fn items(&self) -> Seq<(Seq<char>, V::V)> {
        self.entries@.map_values(|e: (String, V)| (e.0@, e.1@))
    }

    /// Each name occurs once.
    #[verifier::type_invariant]
    pub closed spec fn inv(&self) -> bool {
        distinct_keys(self.items())
    }
}

impl<V: View> View for VmTable<V> {
    type V = Map<Seq<char>, V::V>;

    open spec fn view(&self) -> Map<Seq<char>, V::V> {
        map_of(self.items())
    }
}

/// The domain of `map_of(s)` is the set of names in `s`, and with distinct
/// names each name maps to the value stored beside it.
pub proof fn lemma_map_of<T>(s: Seq<(Seq<char>, T)>)
    ensures
        forall|k: Seq<char>|
            #![trigger map_of(s).dom().contains(k)]
            map_of(s).dom().contains(k) <==> exists|i: int| 0 <= i < s.len() && s[i].0 == k,
        distinct_keys(s) ==> forall|i: int|
            #![trigger s[i]]
            0 <= i < s.len() ==> map_of(s)[s[i].0] == s[i].1,
        map_of(s).dom().finite(),
    decreases s.len(),
{
    if s.len() > 0 {
        let t = s.drop_last();
        lemma_map_of(t);
        assert forall|k: Seq<char>|
            #![trigger map_of(s).dom().contains(k)]
            map_of(s).dom().contains(k) <==> exists|i: int| 0 <= i < s.len() && s[i].0 == k by {
            if map_of(s).dom().contains(k) && k != s.last().0 {
                let i = choose|i: int| 0 <= i < t.len() && t[i].0 == k;
                assert(s[i] == t[i]);
            }
            if exists|i: int| 0 <= i < s.len() && s[i].0 == k {
                let i = choose|i: int| 0 <= i < s.len() && s[i].0 == k;
                if i < s.len() - 1 {
                    assert(t[i] == s[i]);
                }
            }
        }
        if distinct_keys(s) {
            assert forall|i: int| #![trigger s[i]] 0 <= i < s.len() implies map_of(s)[s[i].0]
                == s[i].1 by {
                if i < s.len() - 1 {
                    assert(t[i] == s[i]);
                    assert(s[i].0 != s[s.len() - 1].0);
                }
            }
        }
    }
}

/// With distinct names, `map_of` has one key per item.
pub proof fn lemma_map_of_len<T>(s: Seq<(Seq<char>, T)>)
    requires
        distinct_keys(s),
    ensures
        map_of(s).dom().len() == s.len(),
    decreases s.len(),
{
    if s.len() > 0 {
        let t = s.drop_last();
        lemma_map_of(t);
        lemma_map_of_len(t);
        if map_of(t).dom().contains(s.last().0) {
            let i = choose|i: int| 0 <= i < t.len() && t[i].0 == s.last().0;
            assert(s[i] == t[i]);
        }
    }
}


/// After a value is stored under a name, looking the name up gives that
/// value and every other name looks up as before; the number of names grows
/// by one exactly when the name was new.
pub proof fn lemma_insert_then_get<T>(m: Map<Seq<char>, T>, k: Seq<char>, v: T, other: Seq<char>)
    requires
        m.dom().finite(),
    ensures
        m.insert(k, v).dom().contains(k),
        m.insert(k, v)[k] == v,
        other != k ==> (m.insert(k, v).dom().contains(other) == m.dom().contains(other)),
        other != k && m.dom().contains(other) ==> m.insert(k, v)[other] == m[other],
        m.insert(k, v).dom().len() == (if m.dom().contains(k) { m.dom().len() } else { m.dom().len() + 1 }),
{
    if m.dom().contains(k) {
        assert(m.insert(k, v).dom() =~= m.dom());
    }
}


/// A table whose invariant holds has distinct names.
pub proof fn lemma_inv_distinct<V: View>(t: VmTable<V>)
    requires
        t.inv(),
    ensures
        distinct_keys(t.items()),
{
}

/// The map that reading `xs` in order gives, where each item may contribute
/// one named value and a later item replaces an earlier one of the same name.
pub open spec fn keyed_fold<X, T>(xs: Seq<X>, f: spec_fn(X) -> Option<(Seq<char>, T)>) -> Map<Seq<char>, T>
    decreases xs.len(),
{
    if xs.len() == 0 {
        Map::empty()
    } else {
        let m = keyed_fold(xs.drop_last(), f);
        match f(xs.last()) {
            Some(e) => m.insert(e.0, e.1),
            None => m,
        }
    }
}

/// In a keyed fold, a name is present exactly when some item contributes it,
/// and its value is the one the last such item contributes.
pub proof fn lemma_keyed_fold_last_wins<X, T>(xs: Seq<X>, f: spec_fn(X) -> Option<(Seq<char>, T)>, n: Seq<char>)
    ensures
        keyed_fold(xs, f).dom().contains(n) <==> exists|i: int|
            0 <= i < xs.len() && #[trigger] f(xs[i]) is Some && f(xs[i])->Some_0.0 == n,
        keyed_fold(xs, f).dom().contains(n) ==> exists|i: int|
            0 <= i < xs.len() && #[trigger] f(xs[i]) == Some((n, keyed_fold(xs, f)[n]))
                && forall|j: int| i < j < xs.len() ==> !(#[trigger] f(xs[j]) is Some && f(xs[j])->Some_0.0 == n),
    decreases xs.len(),
{
    if xs.len() > 0 {
        let t = xs.drop_last();
        let last = xs.len() - 1;
        lemma_keyed_fold_last_wins(t, f, n);
        assert(xs[last] == xs.last());
        assert forall|i: int| 0 <= i < t.len() implies xs[i] == t[i] by {}
        if f(xs.last()) is Some && f(xs.last())->Some_0.0 == n {
            assert(f(xs[last]) == Some((n, keyed_fold(xs, f)[n])));
        } else if keyed_fold(xs, f).dom().contains(n) {
            let i = choose|i: int|
                0 <= i < t.len() && #[trigger] f(t[i]) == Some((n, keyed_fold(t, f)[n]))
                    && forall|j: int| i < j < t.len() ==> !(#[trigger] f(t[j]) is Some && f(t[j])->Some_0.0 == n);
            assert(f(xs[i]) == Some((n, keyed_fold(xs, f)[n])));
            assert forall|j: int| i < j < xs.len() implies !(#[trigger] f(xs[j]) is Some && f(xs[j])->Some_0.0 == n) by {
                if j < last {
                    assert(xs[j] == t[j]);
                }
            }
        }
        if exists|i: int| 0 <= i < xs.len() && #[trigger] f(xs[i]) is Some && f(xs[i])->Some_0.0 == n {
            let i = choose|i: int| 0 <= i < xs.len() && #[trigger] f(xs[i]) is Some && f(xs[i])->Some_0.0 == n;
            if i < last {
                assert(f(t[i]) is Some);
            }
        }
    }
}

/// Reading `a` and then `b` gives the map of `a` overridden by the map of `b`.
pub proof fn lemma_keyed_fold_concat<X, T>(a: Seq<X>, b: Seq<X>, f: spec_fn(X) -> Option<(Seq<char>, T)>)
    ensures
        keyed_fold(a + b, f) == keyed_fold(a, f).union_prefer_right(keyed_fold(b, f)),
    decreases b.len(),
{
    if b.len() == 0 {
        assert(a + b =~= a);
        assert(keyed_fold(a, f).union_prefer_right(keyed_fold(b, f)) =~= keyed_fold(a, f));
    } else {
        lemma_keyed_fold_concat(a, b.drop_last(), f);
        assert((a + b).drop_last() =~= a + b.drop_last());
        assert((a + b).last() == b.last());
        let l = keyed_fold(a, f);
        let r = keyed_fold(b.drop_last(), f);
        match f(b.last()) {
            Some(e) => {
                assert(l.union_prefer_right(r).insert(e.0, e.1) =~= l.union_prefer_right(r.insert(e.0, e.1)));
            },
            None => {},
        }
    }
}

impl<V: View> VmTable<V> {
    /// An empty table.
    pub fn new() -> (r: Self)
        ensures
            r.items() == Seq::<(Seq<char>, V::V)>::empty(),
            r@ == Map::<Seq<char>, V::V>::empty(),
    {
        let r = VmTable { entries: Vec::new() };
        assert(r.items() =~= Seq::<(Seq<char>, V::V)>::empty());
        r
    }

    /// Number of entries.
    pub fn len(&self) -> (n: usize)
        ensures
            n == self.items().len(),
            n == self@.dom().len(),
    {
        proof {
            use_type_invariant(self);
            lemma_map_of_len(self.items());
        }
        self.entries.len()
    }

    /// Position of the item named `key`, if any.
    fn position(&self, key: &str) -> (r: Option<usize>)
        ensures
            match r {
                Some(i) => i < self.items().len() && self.items()[i as int].0 == key@,
                None => forall|i: int| 0 <= i < self.items().len() ==> self.items()[i].0 != key@,
            },
    {
        let n = self.entries.len();
        let mut i: usize = 0;
        while i < n
            invariant
                n == self.entries@.len(),
                n == self.items().len(),
                i <= n,
                forall|j: int| 0 <= j < i ==> self.items()[j].0 != key@,
            decreases n - i,
        {
            if str_equal(self.entries[i].0.as_str(), key) {
                return Some(i);
            }
            i = i + 1;
        }
        None
    }

    /// The name and value of the entry at position `i`.
    pub fn entry(&self, i: usize) -> (r: (&String, &V))
        requires
            i < self.items().len(),
        ensures
            (r.0@, r.1@) == self.items()[i as int],
    {
        let e = &self.entries[i];
        (&e.0, &e.1)
    }

    /// The value stored under `key`, if any.
    pub fn get(&self, key: &str) -> (r: Option<&V>)
        ensures
            r.is_some() == self@.dom().contains(key@),
            r.is_some() ==> r.unwrap()@ == self@[key@],
    {
        proof {
            use_type_invariant(self);
            lemma_map_of(self.items());
        }
        match self.position(key) {
            Some(i) => {
                assert(self.items()[i as int].0 == key@);
                Some(&self.entries[i].1)
            },
            None => None,
        }
    }

    /// Stores `value` under `key`, replacing any value already there.
    pub fn insert(&mut self, key: String, value: V)
        ensures
            final(self)@ == old(self)@.insert(key@, value@),
            old(self)@.dom().contains(key@) ==> exists|i: int|
                0 <= i < old(self).items().len() && old(self).items()[i].0 == key@
                    && final(self).items() == old(self).items().update(i, (key@, value@)),
            !old(self)@.dom().contains(key@) ==> final(self).items() == old(self).items().push(
                (key@, value@),
            ),
    {
        proof {
            use_type_invariant(&*self);
            lemma_map_of(self.items());
        }
        let ghost old_items = self.items();
        let ghost kv = (key@, value@);
        match self.position(key.as_str()) {
            Some(i) => {
                let mut entries: Vec<(String, V)> = Vec::new();
                std::mem::swap(&mut entries, &mut self.entries);
                entries.set(i, (key, value));
                proof {
                    let s = entries@.map_values(|e: (String, V)| (e.0@, e.1@));
                    assert(s =~= old_items.update(i as int, kv));
                    assert(distinct_keys(s));
                    lemma_map_of(s);
                    assert(map_of(s) =~= map_of(old_items).insert(kv.0, kv.1)) by {
                        assert forall|k: Seq<char>|
                            #![trigger map_of(s).dom().contains(k)]
                            map_of(s).dom().contains(k) implies map_of(old_items).insert(kv.0, kv.1).dom().contains(k)
                                && map_of(s)[k] == map_of(old_items).insert(kv.0, kv.1)[k] by {
                            let j = choose|j: int| 0 <= j < s.len() && s[j].0 == k;
                            if j != i {
                                assert(s[j] == old_items[j]);
                            }
                        }
                        assert forall|k: Seq<char>|
                            #![trigger map_of(old_items).insert(kv.0, kv.1).dom().contains(k)]
                            map_of(old_items).insert(kv.0, kv.1).dom().contains(k) implies map_of(s).dom().contains(k) by {
                            if k != kv.0 {
                                let j = choose|j: int| 0 <= j < old_items.len() && old_items[j].0 == k;
                                assert(s[j] == old_items[j]);
                            } else {
                                assert(map_of(s).dom().contains(s[i as int].0));
                            }
                        }
                    }
                }
                self.entries = entries;
            },
            None => {
                let mut entries: Vec<(String, V)> = Vec::new();
                std::mem::swap(&mut entries, &mut self.entries);
                entries.push((key, value));
                proof {
                    let s = entries@.map_values(|e: (String, V)| (e.0@, e.1@));
                    assert(s =~= old_items.push(kv));
                    lemma_map_of(old_items);
                }
                self.entries = entries;
                proof {
                    let s = self.items();
                    assert(s =~= old_items.push(kv));
                    assert(s.drop_last() =~= old_items);
                }
            },
        }
    }
}

} // verus!

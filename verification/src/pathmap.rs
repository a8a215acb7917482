//! A map from paths to values, in ascending order of the paths.
use vstd::prelude::*;
use crate::text::{ascending, lex_irreflexive, lex_lt, lex_total, lex_transitive, str_eq, str_less};

verus! {

/// The keys of a list of pairs.
pub open spec fn keys<T>(s: Seq<(Seq<char>, T)>) -> Seq<Seq<char>> {
    Seq::new(s.len(), |i: int| s[i].0)
}

/// The value of a key in a list of pairs.
pub open spec fn value_of<T>(s: Seq<(Seq<char>, T)>, key: Seq<char>) -> Option<T>
    decreases s.len(),
{
    if s.len() == 0 {
        None
    } else if s.last().0 == key {
        Some(s.last().1)
    } else {
        value_of(s.drop_last(), key)
    }
}

/// The ascending list `s` with `value` for `key`.
pub open spec fn put<T>(s: Seq<(Seq<char>, T)>, key: Seq<char>, value: T) -> Seq<(Seq<char>, T)>
    decreases s.len(),
{
    if s.len() == 0 {
        seq![(key, value)]
    } else if key == s.last().0 {
        s.drop_last().push((key, value))
    } else if lex_lt(key, s.last().0) {
        put(s.drop_last(), key, value).push(s.last())
    } else {
        s.push((key, value))
    }
}

/// The list `s` without the pair of `key`.
pub open spec fn drop_key<T>(s: Seq<(Seq<char>, T)>, key: Seq<char>) -> Seq<(Seq<char>, T)>
    decreases s.len(),
{
    if s.len() == 0 {
        s
    } else if s.last().0 == key {
        s.drop_last()
    } else {
        drop_key(s.drop_last(), key).push(s.last())
    }
}

/// A key has a value exactly when it is among the keys.
pub proof fn value_of_is_keyed<T>(s: Seq<(Seq<char>, T)>, key: Seq<char>)
    ensures
        value_of(s, key) is Some <==> keys(s).contains(key),
    decreases s.len(),
{
    if s.len() > 0 {
        let rest = s.drop_last();
        value_of_is_keyed(rest, key);
        assert(keys(s)[s.len() - 1] == s.last().0);
        if keys(rest).contains(key) {
            let i = choose|i: int| 0 <= i < rest.len() && keys(rest)[i] == key;
            assert(keys(s)[i] == key);
        }
        if keys(s).contains(key) {
            let i = choose|i: int| 0 <= i < s.len() && keys(s)[i] == key;
            if i < s.len() - 1 {
                assert(keys(rest)[i] == key);
            }
        }
    }
}

/// In an ascending list the value of a key is the one that stands beside it.
pub proof fn value_of_at<T>(s: Seq<(Seq<char>, T)>, i: int)
    requires
        ascending(keys(s)),
        0 <= i < s.len(),
    ensures
        value_of(s, s[i].0) == Some(s[i].1),
    decreases s.len(),
{
    let rest = s.drop_last();
    if i < s.len() - 1 {
        assert(ascending(keys(rest))) by {
            assert forall|a: int, b: int| 0 <= a < b < keys(rest).len() implies lex_lt(
                #[trigger] keys(rest)[a],
                #[trigger] keys(rest)[b],
            ) by {
                assert(keys(s)[a] == keys(rest)[a] && keys(s)[b] == keys(rest)[b]);
            }
        }
        value_of_at(rest, i);
        assert(lex_lt(keys(s)[i], keys(s)[s.len() - 1]));
        lex_irreflexive(s[i].0);
    }
}

proof fn ascending_prefix<T>(s: Seq<(Seq<char>, T)>)
    requires
        ascending(keys(s)),
        s.len() > 0,
    ensures
        ascending(keys(s.drop_last())),
        forall|i: int|
            0 <= i < s.len() - 1 ==> lex_lt(#[trigger] keys(s.drop_last())[i], s.last().0),
{
    let rest = s.drop_last();
    assert forall|a: int, b: int| 0 <= a < b < keys(rest).len() implies lex_lt(
        #[trigger] keys(rest)[a],
        #[trigger] keys(rest)[b],
    ) by {
        assert(keys(s)[a] == keys(rest)[a] && keys(s)[b] == keys(rest)[b]);
    }
    assert forall|i: int| 0 <= i < s.len() - 1 implies lex_lt(
        #[trigger] keys(rest)[i],
        s.last().0,
    ) by {
        assert(keys(s)[i] == keys(rest)[i]);
        assert(keys(s)[s.len() - 1] == s.last().0);
    }
}

proof fn value_of_push<T>(s: Seq<(Seq<char>, T)>, x: (Seq<char>, T), k: Seq<char>)
    ensures
        value_of(s.push(x), k) == if x.0 == k {
            Some(x.1)
        } else {
            value_of(s, k)
        },
{
    assert(s.push(x).drop_last() =~= s);
}

/// Putting a value keeps the order, gives the key its value and leaves all other keys alone.
pub proof fn put_sets_one_key<T>(s: Seq<(Seq<char>, T)>, key: Seq<char>, value: T)
    requires
        ascending(keys(s)),
    ensures
        ascending(keys(put(s, key, value))),
        forall|k: Seq<char>| #[trigger]
            value_of(put(s, key, value), k) == if k == key {
                Some(value)
            } else {
                value_of(s, k)
            },
    decreases s.len(),
{
    let r = put(s, key, value);
    assert forall|k: Seq<char>| #[trigger] value_of(r, k) == if k == key {
        Some(value)
    } else {
        value_of(s, k)
    } by {
        if s.len() == 0 {
            assert(r =~= s.push((key, value)));
            value_of_push(s, (key, value), k);
        } else {
            ascending_prefix(s);
            lex_irreflexive(key);
            let rest = s.drop_last();
            assert(s =~= rest.push(s.last()));
            value_of_push(rest, s.last(), k);
            value_of_push(rest, (key, value), k);
            value_of_push(s, (key, value), k);
            if lex_lt(key, s.last().0) {
                put_sets_one_key(rest, key, value);
                value_of_push(put(rest, key, value), s.last(), k);
            }
        }
    }
    if s.len() > 0 {
        ascending_prefix(s);
        let rest = s.drop_last();
        if key == s.last().0 {
            assert(keys(r) =~= keys(s));
        } else if lex_lt(key, s.last().0) {
            let t = put(rest, key, value);
            put_sets_one_key(rest, key, value);
            assert forall|a: int, b: int| 0 <= a < b < keys(r).len() implies lex_lt(
                #[trigger] keys(r)[a],
                #[trigger] keys(r)[b],
            ) by {
                assert(keys(t)[a] == keys(r)[a]);
                if b < t.len() {
                    assert(keys(t)[b] == keys(r)[b]);
                } else {
                    assert(keys(r)[b] == s.last().0);
                    let k = keys(t)[a];
                    assert(keys(t).contains(k));
                    value_of_is_keyed(t, k);
                    if k != key {
                        value_of_is_keyed(rest, k);
                        let i = choose|i: int| 0 <= i < rest.len() && keys(rest)[i] == k;
                        assert(lex_lt(keys(rest)[i], s.last().0));
                    }
                }
            }
        } else {
            lex_total(key, s.last().0);
            assert forall|a: int, b: int| 0 <= a < b < keys(r).len() implies lex_lt(
                #[trigger] keys(r)[a],
                #[trigger] keys(r)[b],
            ) by {
                assert(keys(s)[a] == keys(r)[a]);
                if b < s.len() {
                    assert(keys(s)[b] == keys(r)[b]);
                } else if a < s.len() - 1 {
                    assert(keys(s)[s.len() - 1] == s.last().0);
                    lex_transitive(keys(s)[a], s.last().0, key);
                }
            }
        }
    }
}

/// Dropping a key keeps the order, takes the key out and leaves all other keys alone.
pub proof fn drop_key_clears_one_key<T>(s: Seq<(Seq<char>, T)>, key: Seq<char>)
    requires
        ascending(keys(s)),
    ensures
        ascending(keys(drop_key(s, key))),
        forall|k: Seq<char>| #[trigger]
            value_of(drop_key(s, key), k) == if k == key {
                None
            } else {
                value_of(s, k)
            },
    decreases s.len(),
{
    let r = drop_key(s, key);
    if s.len() > 0 {
        ascending_prefix(s);
        let rest = s.drop_last();
        if s.last().0 == key {
            value_of_is_keyed(rest, key);
            if keys(rest).contains(key) {
                let i = choose|i: int| 0 <= i < rest.len() && keys(rest)[i] == key;
                assert(lex_lt(keys(rest)[i], s.last().0));
                lex_irreflexive(key);
            }
        } else {
            let t = drop_key(rest, key);
            drop_key_clears_one_key(rest, key);
            assert forall|k: Seq<char>| #[trigger] value_of(r, k) == if k == key {
                None
            } else {
                value_of(s, k)
            } by {
                assert(s =~= rest.push(s.last()));
                value_of_push(rest, s.last(), k);
                value_of_push(t, s.last(), k);
            }
            assert forall|a: int, b: int| 0 <= a < b < keys(r).len() implies lex_lt(
                #[trigger] keys(r)[a],
                #[trigger] keys(r)[b],
            ) by {
                assert(keys(t)[a] == keys(r)[a]);
                if b < t.len() {
                    assert(keys(t)[b] == keys(r)[b]);
                } else {
                    let k = keys(t)[a];
                    assert(keys(t).contains(k));
                    value_of_is_keyed(t, k);
                    value_of_is_keyed(rest, k);
                    let i = choose|i: int| 0 <= i < rest.len() && keys(rest)[i] == k;
                    assert(lex_lt(keys(rest)[i], s.last().0));
                }
            }
        }
    }
}

proof fn put_at<T>(s: Seq<(Seq<char>, T)>, key: Seq<char>, value: T, at: int)
    requires
        0 <= at <= s.len(),
        forall|j: int| at <= j < s.len() ==> lex_lt(key, (#[trigger] s[j]).0),
        at > 0 ==> !lex_lt(key, s[at - 1].0),
    ensures
        put(s, key, value) == if at > 0 && s[at - 1].0 == key {
            s.update(at - 1, (key, value))
        } else {
            s.insert(at, (key, value))
        },
    decreases s.len(),
{
    if at < s.len() {
        assert(lex_lt(key, s[s.len() - 1].0));
        lex_irreflexive(key);
        put_at(s.drop_last(), key, value, at);
        if at > 0 && s[at - 1].0 == key {
            assert(s.drop_last().update(at - 1, (key, value)).push(s.last()) =~= s.update(
                at - 1,
                (key, value),
            ));
        } else {
            assert(s.insert(at, (key, value)) =~= s.drop_last().insert(at, (key, value)).push(
                s.last(),
            ));
        }
    } else if s.len() == 0 {
        assert(s.insert(at, (key, value)) =~= seq![(key, value)]);
    } else if s.last().0 == key {
        assert(s.drop_last().push((key, value)) =~= s.update(at - 1, (key, value)));
    } else {
        assert(s.insert(at, (key, value)) =~= s.push((key, value)));
    }
}

proof fn drop_key_at<T>(s: Seq<(Seq<char>, T)>, key: Seq<char>, at: int)
    requires
        0 <= at < s.len(),
        s[at].0 == key,
        forall|j: int| at < j < s.len() ==> (#[trigger] s[j]).0 != key,
    ensures
        drop_key(s, key) == s.remove(at),
        value_of(s, key) == Some(s[at].1),
    decreases s.len(),
{
    if at < s.len() - 1 {
        assert(s[s.len() - 1].0 != key);
        drop_key_at(s.drop_last(), key, at);
        assert(s.remove(at) =~= s.drop_last().remove(at).push(s.last()));
    } else {
        assert(s.remove(at) =~= s.drop_last());
    }
}

proof fn drop_absent_key<T>(s: Seq<(Seq<char>, T)>, key: Seq<char>)
    requires
        forall|j: int| 0 <= j < s.len() ==> (#[trigger] s[j]).0 != key,
    ensures
        drop_key(s, key) == s,
        value_of(s, key) is None,
    decreases s.len(),
{
    if s.len() > 0 {
        assert(s[s.len() - 1].0 != key);
        drop_absent_key(s.drop_last(), key);
        assert(s.drop_last().push(s.last()) =~= s);
    }
}

/// A map from relative paths to values, walked in ascending order of the paths.
#[derive(Debug)]
pub struct PathMap<V> {
    entries: Vec<(String, V)>,
}

impl<V: DeepView> PathMap<V> {
    /// What the map holds, in ascending order of the keys.
    pub closed spec fn pairs(&self) -> Seq<(Seq<char>, V::V)> {
        self.entries.deep_view()
    }

    /// The keys are in strictly ascending order.
    pub open spec fn wf(&self) -> bool {
        ascending(keys(self.pairs()))
    }

    pub fn new() -> (r: Self)
        ensures
            r.wf(),
            r.pairs() == Seq::<(Seq<char>, V::V)>::empty(),
    {
        let r = PathMap { entries: Vec::new() };
        assert(r.pairs() =~= Seq::empty());
        r
    }

    /// The map with the given pairs, which are in ascending order of their keys.
    pub fn from_sorted(entries: Vec<(String, V)>) -> (r: Self)
        requires
            ascending(keys(entries.deep_view())),
        ensures
            r.wf(),
            r.pairs() == entries.deep_view(),
    {
        PathMap { entries }
    }

    /// The pairs of the map, in ascending order of the keys.
    pub fn entries(&self) -> (r: &Vec<(String, V)>)
        ensures
            r.deep_view() == self.pairs(),
    {
        &self.entries
    }

    fn find(&self, key: &str) -> (r: Option<usize>)
        ensures
            match r {
                Some(i) => i < self.entries.len() && self.pairs()[i as int].0 == key@ && drop_key(
                    self.pairs(),
                    key@,
                ) == self.pairs().remove(i as int) && value_of(self.pairs(), key@) == Some(
                    self.pairs()[i as int].1,
                ),
                None => drop_key(self.pairs(), key@) == self.pairs() && value_of(
                    self.pairs(),
                    key@,
                ) is None,
            },
    {
        let ghost s = self.pairs();
        let mut i: usize = self.entries.len();
        while i > 0
            invariant
                i <= self.entries.len(),
                s == self.pairs(),
                forall|j: int| i <= j < s.len() ==> (#[trigger] s[j]).0 != key@,
            decreases i,
        {
            i -= 1;
            assert(s[i as int] == self.entries[i as int].deep_view());
            if str_eq(self.entries[i].0.as_str(), key) {
                proof {
                    drop_key_at(s, key@, i as int);
                }
                return Some(i);
            }
        }
        proof {
            drop_absent_key(s, key@);
        }
        None
    }

    /// The value of a key.
    pub fn get(&self, key: &str) -> (r: Option<&V>)
        ensures
            match r {
                Some(v) => value_of(self.pairs(), key@) == Some(v.deep_view()),
                None => value_of(self.pairs(), key@) is None,
            },
    {
        match self.find(key) {
            Some(i) => {
                assert(self.pairs()[i as int] == self.entries[i as int].deep_view());
                Some(&self.entries[i].1)
            },
            None => None,
        }
    }

    pub fn contains_key(&self, key: &str) -> (r: bool)
        ensures
            r == (value_of(self.pairs(), key@) is Some),
    {
        self.find(key).is_some()
    }

    /// Number of keys.
    pub fn len(&self) -> (n: usize)
        ensures
            n == self.pairs().len(),
    {
        self.entries.len()
    }

    /// The key at position `i` of the ascending order.
    pub fn key_at(&self, i: usize) -> (r: &str)
        requires
            i < self.pairs().len(),
        ensures
            r@ == self.pairs()[i as int].0,
    {
        assert(self.pairs()[i as int] == self.entries[i as int].deep_view());
        self.entries[i].0.as_str()
    }

    /// The value at position `i` of the ascending order.
    pub fn value_at(&self, i: usize) -> (r: &V)
        requires
            i < self.pairs().len(),
        ensures
            r.deep_view() == self.pairs()[i as int].1,
    {
        assert(self.pairs()[i as int] == self.entries[i as int].deep_view());
        &self.entries[i].1
    }

    /// Sets the value of a key.
    pub fn insert(&mut self, key: String, value: V)
        requires
            old(self).wf(),
        ensures
            final(self).wf(),
            final(self).pairs() == put(old(self).pairs(), key@, value.deep_view()),
    {
        let ghost s = self.pairs();
        let ghost pair = (key@, value.deep_view());
        let mut at: usize = self.entries.len();
        while at > 0 && str_less(key.as_str(), self.entries[at - 1].0.as_str())
            invariant
                at <= self.entries.len(),
                s == self.entries.deep_view(),
                forall|j: int| at <= j < s.len() ==> lex_lt(key@, (#[trigger] s[j]).0),
            decreases at,
        {
            at -= 1;
            assert(s[at as int] == self.entries[at as int].deep_view());
        }
        proof {
            put_sets_one_key(s, pair.0, pair.1);
            if at > 0 {
                assert(s[at - 1] == self.entries[at - 1].deep_view());
            }
            put_at(s, pair.0, pair.1, at as int);
        }
        if at > 0 && str_eq(self.entries[at - 1].0.as_str(), key.as_str()) {
            self.entries.set(at - 1, (key, value));
            assert(self.entries.deep_view() =~= s.update(at - 1, pair));
        } else {
            self.entries.insert(at, (key, value));
            assert(self.entries.deep_view() =~= s.insert(at as int, pair));
        }
    }

    /// Takes a key out.
    pub fn remove(&mut self, key: &str)
        requires
            old(self).wf(),
        ensures
            final(self).wf(),
            final(self).pairs() == drop_key(old(self).pairs(), key@),
    {
        let ghost s = self.pairs();
        proof {
            drop_key_clears_one_key(s, key@);
        }
        match self.find(key) {
            Some(i) => {
                self.entries.remove(i);
                assert(self.entries.deep_view() =~= s.remove(i as int));
            },
            None => {},
        }
    }
}

} // verus!

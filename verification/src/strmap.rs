//! A map keyed by strings, kept as a list of entries.

use vstd::prelude::*;

verus! {

/// The value of the first entry of `s` whose key is `k`.
pub open spec fn lookup<W>(s: Seq<(Seq<char>, W)>, k: Seq<char>) -> Option<W>
    decreases s.len(),
{
    if s.len() == 0 {
        None
    } else if s[0].0 == k {
        Some(s[0].1)
    } else {
        lookup(s.drop_first(), k)
    }
}

proof fn lemma_lookup_found<W>(s: Seq<(Seq<char>, W)>, i: int, k: Seq<char>)
    requires
        0 <= i < s.len(),
        s[i].0 == k,
        forall|j: int| 0 <= j < i ==> s[j].0 != k,
    ensures
        lookup(s, k) == Some(s[i].1),
    decreases i,
{
    if i > 0 {
        lemma_lookup_found(s.drop_first(), i - 1, k);
    }
}

proof fn lemma_lookup_absent<W>(s: Seq<(Seq<char>, W)>, k: Seq<char>)
    requires
        forall|j: int| 0 <= j < s.len() ==> s[j].0 != k,
    ensures
        lookup(s, k) is None,
    decreases s.len(),
{
    if s.len() > 0 {
        lemma_lookup_absent(s.drop_first(), k);
    }
}

proof fn lemma_lookup_update<W>(s: Seq<(Seq<char>, W)>, i: int, e: (Seq<char>, W), k: Seq<char>)
    requires
        0 <= i < s.len(),
        s[i].0 == e.0,
        forall|j: int| 0 <= j < i ==> s[j].0 != e.0,
    ensures
        lookup(s.update(i, e), k) == if k == e.0 { Some(e.1) } else { lookup(s, k) },
    decreases i,
{
    if i > 0 {
        assert(s.update(i, e).drop_first() =~= s.drop_first().update(i - 1, e));
        lemma_lookup_update(s.drop_first(), i - 1, e, k);
    } else {
        assert(s.update(i, e).drop_first() =~= s.drop_first());
        assert(s.update(i, e)[0] == e);
    }
}

proof fn lemma_lookup_push<W>(s: Seq<(Seq<char>, W)>, e: (Seq<char>, W), k: Seq<char>)
    ensures
        lookup(s.push(e), k) == if lookup(s, k) is Some {
            lookup(s, k)
        } else if k == e.0 {
            Some(e.1)
        } else {
            None::<W>
        },
    decreases s.len(),
{
    if s.len() > 0 {
        assert(s.push(e).drop_first() =~= s.drop_first().push(e));
        lemma_lookup_push(s.drop_first(), e, k);
    } else {
        assert(s.push(e).drop_first() =~= Seq::<(Seq<char>, W)>::empty());
        assert(s.push(e)[0] == e);
        assert(lookup(s.push(e).drop_first(), k) is None);
        assert(lookup(s, k) is None);
    }
}

/// A finite map from strings to values, answering with the first entry of a key.
#[derive(Clone, Debug)]
pub struct StrMap<V> {
    entries: Vec<(String, V)>,
}

impl<V: View> StrMap<V> {
    /// The entries, keys and values taken by their views.
    pub closed spec fn entry_views(&self) -> Seq<(Seq<char>, V::V)> {
        self.entries@.map_values(|e: (String, V)| (e.0@, e.1@))
    }
}

impl<V: View> View for StrMap<V> {
    type V = Map<Seq<char>, V::V>;

    closed spec fn view(&self) -> Map<Seq<char>, V::V> {
        Map::new(
            |k: Seq<char>| lookup(self.entry_views(), k) is Some,
            |k: Seq<char>| lookup(self.entry_views(), k)->0,
        )
    }
}

impl<V: View> StrMap<V> {
    /// An empty map.
    pub fn new() -> (m: Self)
        ensures
            m@ == Map::<Seq<char>, V::V>::empty(),
    {
        let m = StrMap { entries: Vec::new() };
        assert(m@ =~= Map::<Seq<char>, V::V>::empty());
        m
    }

    /// Whether the map holds no key.
    pub fn is_empty(&self) -> (b: bool)
        ensures
            b <==> self@ == Map::<Seq<char>, V::V>::empty(),
    {
        let b = self.entries.len() == 0;
        if b {
            assert(self@ =~= Map::<Seq<char>, V::V>::empty());
        } else {
            assert(self.entry_views()[0].0 == self.entries@[0].0@);
            assert(self@.dom().contains(self.entries@[0].0@));
        }
        b
    }

    /// The position of the first entry with key `key`.
    fn find(&self, key: &String) -> (r: Option<usize>)
        ensures
            r matches Some(i) ==> i < self.entries@.len() && self.entry_views()[i as int].0 == key@
                && forall|j: int| 0 <= j < i ==> self.entry_views()[j].0 != key@,
            r is None ==> forall|j: int|
                0 <= j < self.entries@.len() ==> self.entry_views()[j].0 != key@,
    {
        let mut i: usize = 0;
        while i < self.entries.len()
            invariant
                i <= self.entries@.len(),
                forall|j: int| 0 <= j < i ==> self.entry_views()[j].0 != key@,
            decreases self.entries@.len() - i,
        {
            if self.entries[i].0 == *key {
                return Some(i);
            }
            i = i + 1;
        }
        None
    }

    /// The value stored under `key`, if any.
    pub fn get(&self, key: &str) -> (r: Option<&V>)
        ensures
            r is Some <==> self@.contains_key(key@),
            r matches Some(v) ==> v@ == self@[key@],
    {
        let k = key.to_owned();
        match self.find(&k) {
            Some(i) => {
                proof {
                    lemma_lookup_found(self.entry_views(), i as int, key@);
                }
                Some(&self.entries[i].1)
            },
            None => {
                proof {
                    lemma_lookup_absent(self.entry_views(), key@);
                }
                None
            },
        }
    }

    /// Stores `value` under `key`, replacing what was stored there.
    pub fn insert(&mut self, key: String, value: V)
        ensures
            final(self)@ == old(self)@.insert(key@, value@),
    {
        let ghost old_views = self.entry_views();
        let ghost e = (key@, value@);
        match self.find(&key) {
            Some(i) => {
                self.entries.set(i, (key, value));
                proof {
                    assert(self.entry_views() =~= old_views.update(i as int, e));
                    assert forall|k: Seq<char>|
                        lookup(self.entry_views(), k) == if k == e.0 {
                            Some(e.1)
                        } else {
                            lookup(old_views, k)
                        } by {
                        lemma_lookup_update(old_views, i as int, e, k);
                    }
                }
            },
            None => {
                self.entries.push((key, value));
                proof {
                    assert(self.entry_views() =~= old_views.push(e));
                    lemma_lookup_absent(old_views, e.0);
                    assert forall|k: Seq<char>|
                        lookup(self.entry_views(), k) == if k == e.0 {
                            Some(e.1)
                        } else {
                            lookup(old_views, k)
                        } by {
                        lemma_lookup_push(old_views, e, k);
                    }
                }
            },
        }
        assert(self@ =~= old(self)@.insert(e.0, e.1));
    }
}

/// The map from keys to string values that describes one job posting.
pub type FieldMap = StrMap<String>;

} // verus!

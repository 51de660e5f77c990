//! A map keyed by strings, kept as the list of its insertions.

use vstd::prelude::*;
use crate::text::str_eq;

verus! {

/// The map that a list of insertions builds: a later key replaces an
/// earlier one.
pub open spec fn map_of<T: View>(s: Seq<(String, T)>) -> Map<Seq<char>, T::V>
    decreases s.len(),
{
    if s.len() == 0 {
        Map::empty()
    } else {
        map_of(s.drop_last()).insert(s.last().0@, s.last().1@)
    }
}

/// The keys of a list of insertions, in order.
pub open spec fn keys_of<T>(s: Seq<(String, T)>) -> Seq<Seq<char>> {
    s.map_values(|p: (String, T)| p.0@)
}

proof fn lemma_map_of_keys<T: View>(s: Seq<(String, T)>, k: Seq<char>)
    ensures
        map_of(s).contains_key(k) == keys_of(s).contains(k),
    decreases s.len(),
{
    if s.len() > 0 {
        let init = s.drop_last();
        lemma_map_of_keys(init, k);
        let n = s.len() - 1;
        assert(keys_of(s) =~= keys_of(init).push(s.last().0@));
        assert(keys_of(s)[n] == s.last().0@);
        if k != s.last().0@ {
            if keys_of(init).contains(k) {
                let j = choose|j: int| 0 <= j < keys_of(init).len() && keys_of(init)[j] == k;
                assert(keys_of(s)[j] == k);
            }
            if keys_of(s).contains(k) {
                let j = choose|j: int| 0 <= j < keys_of(s).len() && keys_of(s)[j] == k;
                assert(j < n);
                assert(keys_of(init)[j] == k);
            }
        }
    }
}

/// A map from strings to values, in the order the keys were inserted. It
/// is kept as a list, whose contents have a model that contracts can state,
/// rather than as a hash map keyed by strings.
pub struct KeyMap<T> {
    entries: Vec<(String, T)>,
}

impl<T: View> View for KeyMap<T> {
    type V = Map<Seq<char>, T::V>;

    closed spec fn view(&self) -> Map<Seq<char>, T::V> {
        map_of(self.entries@)
    }
}

impl<T: View> KeyMap<T> {
    /// The insertions made so far, oldest first.
    pub closed spec fn insertions(&self) -> Seq<(String, T)> {
        self.entries@
    }

    /// An empty map.
    pub fn new() -> (r: Self)
        ensures
            r@ == Map::<Seq<char>, T::V>::empty(),
    {
        KeyMap { entries: Vec::new() }
    }

    /// Binds `key` to `value`, replacing any earlier binding of `key`.
    pub fn insert(&mut self, key: String, value: T)
        ensures
            final(self)@ == old(self)@.insert(key@, value@),
    {
        let ghost before = self.entries@;
        self.entries.push((key, value));
        assert(self.entries@.drop_last() == before);
    }

    /// The value bound to `key`, if any.
    pub fn get(&self, key: &str) -> (r: Option<&T>)
        ensures
            match r {
                Some(v) => self@.contains_key(key@) && self@[key@] == v@,
                None => !self@.contains_key(key@),
            },
    {
        let mut i: usize = self.entries.len();
        assert(self.entries@.take(i as int) == self.entries@);
        while i > 0
            invariant
                i <= self.entries@.len(),
                map_of(self.entries@).contains_key(key@) == map_of(
                    self.entries@.take(i as int),
                ).contains_key(key@),
                map_of(self.entries@).contains_key(key@) ==> map_of(self.entries@)[key@]
                    == map_of(self.entries@.take(i as int))[key@],
            decreases i,
        {
            assert(self.entries@.take(i as int).drop_last() == self.entries@.take(i - 1));
            if str_eq(self.entries[i - 1].0.as_str(), key) {
                return Some(&self.entries[i - 1].1);
            }
            i = i - 1;
        }
        assert(self.entries@.take(0).len() == 0);
        None
    }

    /// The insertions made so far, oldest first; where a key occurs twice
    /// the later one holds.
    pub fn entries(&self) -> (r: &Vec<(String, T)>)
        ensures
            r@ == self.insertions(),
    {
        &self.entries
    }
}

/// A key is bound exactly when it was inserted.
pub proof fn lemma_bound_iff_inserted<T: View>(m: &KeyMap<T>, k: Seq<char>)
    ensures
        m@.contains_key(k) == keys_of(m.insertions()).contains(k),
{
    lemma_map_of_keys(m.entries@, k);
}

} // verus!

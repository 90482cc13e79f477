//! A string-keyed map in insertion order, read as a `Map` over character
//! sequences.

use vstd::prelude::*;

verus! {

/// A string-keyed dictionary; a later entry for a key replaces an
/// earlier one, as `HashMap::insert` does.
#[derive(Debug, Clone)]
pub struct StrMap {
    pub entries: Vec<(String, String)>,
}

/// The map that inserting `es` in order builds.
pub open spec fn entries_map(es: Seq<(String, String)>) -> Map<Seq<char>, Seq<char>>
    decreases es.len(),
{
    if es.len() == 0 {
        Map::empty()
    } else {
        entries_map(es.drop_last()).insert(es.last().0@, es.last().1@)
    }
}

impl View for StrMap {
    type V = Map<Seq<char>, Seq<char>>;

    open spec fn view(&self) -> Map<Seq<char>, Seq<char>> {
        entries_map(self.entries@)
    }
}

proof fn lemma_entries_map_tail(es: Seq<(String, String)>, j: int, k: Seq<char>)
    requires
        0 <= j <= es.len(),
        forall|i: int| j <= i < es.len() ==> (#[trigger] es[i]).0@ != k,
    ensures
        entries_map(es).contains_key(k) == entries_map(es.take(j)).contains_key(k),
        entries_map(es).contains_key(k) ==> entries_map(es)[k] == entries_map(es.take(j))[k],
    decreases es.len() - j,
{
    if j < es.len() {
        assert(es.drop_last().take(j) =~= es.take(j));
        lemma_entries_map_tail(es.drop_last(), j, k);
    } else {
        assert(es.take(j) =~= es);
    }
}

impl StrMap {
    /// An empty dictionary.
    pub fn new() -> (d: StrMap)
        ensures
            d@ == Map::<Seq<char>, Seq<char>>::empty(),
            d.entries@.len() == 0,
    {
        StrMap { entries: Vec::new() }
    }

    /// Set `key` to `value`.
    pub fn insert(&mut self, key: String, value: String)
        ensures
            final(self)@ == old(self)@.insert(key@, value@),
            final(self).entries@ == old(self).entries@.push((key, value)),
    {
        self.entries.push((key, value));
        assert(self.entries@.drop_last() =~= old(self).entries@);
    }

    /// The value set for `key`, if any.
    pub fn get(&self, key: &str) -> (r: Option<&String>)
        ensures
            r matches Some(v) ==> self@.contains_key(key@) && self@[key@] == v@,
            r is None ==> !self@.contains_key(key@),
    {
        let k = String::from_str(key);
        let mut j: usize = self.entries.len();
        while j > 0
            invariant
                j <= self.entries@.len(),
                k@ == key@,
                forall|i: int| j <= i < self.entries@.len() ==> (#[trigger] self.entries@[i]).0@
                    != key@,
            decreases j,
        {
            if self.entries[j - 1].0 == k {
                proof {
                    lemma_entries_map_tail(self.entries@, j as int, key@);
                    assert(self.entries@.take(j as int).drop_last() =~= self.entries@.take(j - 1));
                }
                return Some(&self.entries[j - 1].1);
            }
            j = j - 1;
        }
        proof {
            lemma_entries_map_tail(self.entries@, 0, key@);
        }
        None
    }
}



/// Reading a key gives back the value last set for it, and setting one
/// key leaves every other key as it was.
pub proof fn lemma_get_after_insert(d: Map<Seq<char>, Seq<char>>, key: Seq<char>, value: Seq<char>, other: Seq<char>)
    requires
        other != key,
    ensures
        d.insert(key, value).contains_key(key),
        d.insert(key, value)[key] == value,
        d.insert(key, value).contains_key(other) == d.contains_key(other),
        d.contains_key(other) ==> d.insert(key, value)[other] == d[other],
{
}

} // verus!

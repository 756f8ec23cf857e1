//! Tables keyed by character sequences.
//!
//! A table is a list of `(key, value)` entries, one per key, read as a map;
//! setting a key that is present replaces its entry in place.
use vstd::prelude::*;

use crate::strs::chars_eq;

verus! {

/// The entries of a table within the crate.
pub(crate) proof fn lemma_entry_seq<V>(t: &Table<V>)
    ensures
        t.entry_seq() == t.entries@,
        t@ == entries_map(t.entry_seq()),
{
}

/// The map that a list of entries stands for: the last entry of a key wins.
pub open spec fn entries_map<V>(s: Seq<(Vec<char>, V)>) -> Map<Seq<char>, V>
    decreases s.len(),
{
    if s.len() == 0 {
        Map::empty()
    } else {
        entries_map(s.drop_last()).insert(s.last().0@, s.last().1)
    }
}

/// A character-keyed table.
#[derive(Debug)]
pub struct Table<V> {
    pub(crate) entries: Vec<(Vec<char>, V)>,
}

impl<V> Table<V> {
    /// The entries, one per key, in the order the keys were first set.
    pub closed spec fn entry_seq(&self) -> Seq<(Vec<char>, V)> {
        self.entries@
    }

    /// Each key has one entry.
    #[verifier::type_invariant]
    pub(crate) open spec fn wf(self) -> bool {
        keys_unique(self.entries@)
    }
}

impl<V> View for Table<V> {
    type V = Map<Seq<char>, V>;

    closed spec fn view(&self) -> Map<Seq<char>, V> {
        entries_map(self.entries@)
    }
}

pub proof fn lemma_entries_map_finite<V>(s: Seq<(Vec<char>, V)>)
    ensures
        entries_map(s).dom().finite(),
    decreases s.len(),
{
    if s.len() > 0 {
        lemma_entries_map_finite(s.drop_last());
    }
}

/// A key is in the map exactly when some entry has it.
pub proof fn lemma_entries_map_dom<V>(s: Seq<(Vec<char>, V)>, k: Seq<char>)
    ensures
        entries_map(s).contains_key(k) <==> exists|i: int| 0 <= i < s.len() && (#[trigger] s[i]).0@
            == k,
    decreases s.len(),
{
    if s.len() > 0 {
        lemma_entries_map_dom(s.drop_last(), k);
        if entries_map(s.drop_last()).contains_key(k) {
            let i = choose|i: int| 0 <= i < s.drop_last().len() && (#[trigger] s.drop_last()[i]).0@ == k;
            assert(s[i] == s.drop_last()[i]);
        }
        if exists|i: int| 0 <= i < s.len() && (#[trigger] s[i]).0@ == k {
            let i = choose|i: int| 0 <= i < s.len() && (#[trigger] s[i]).0@ == k;
            if i < s.len() - 1 {
                assert(s.drop_last()[i] == s[i]);
            }
        }
    }
}

impl<V> Table<V> {
    pub fn new() -> (r: Table<V>)
        ensures
            r@ == Map::<Seq<char>, V>::empty(),
            r.entry_seq() == Seq::<(Vec<char>, V)>::empty(),
    {
        Table { entries: Vec::new() }
    }

    pub fn len(&self) -> (r: usize)
        ensures
            r == self.entry_seq().len(),
    {
        self.entries.len()
    }

    /// Sets `key` to `value`, replacing any earlier value.
    pub fn insert(&mut self, key: Vec<char>, value: V)
        ensures
            final(self)@ == old(self)@.insert(key@, value),
    {
        proof {
            use_type_invariant(&*self);
        }
        let mut entries: Vec<(Vec<char>, V)> = Vec::new();
        std::mem::swap(&mut entries, &mut self.entries);
        set_entry(&mut entries, key, value);
        self.entries = entries;
    }

    /// The number of keys.
    pub fn key_count(&self) -> (r: usize)
        ensures
            r == self@.dom().len(),
    {
        proof {
            use_type_invariant(self);
            lemma_unique_len(self.entries@);
        }
        self.entries.len()
    }

    /// The value of `key`.
    pub fn get(&self, key: &[char]) -> (r: Option<&V>)
        ensures
            match r {
                Some(v) => self@.contains_key(key@) && self@[key@] == *v,
                None => !self@.contains_key(key@),
            },
    {
        let mut i: usize = self.entries.len();
        while i > 0
            invariant
                i <= self.entries@.len(),
                forall|j: int|
                    i <= j < self.entries@.len() ==> (#[trigger] self.entries@[j]).0@ != key@,
            decreases i,
        {
            if chars_eq(self.entries[i - 1].0.as_slice(), key) {
                proof {
                    lemma_last_match_wins(self.entries@, (i - 1) as int, key@);
                }
                return Some(&self.entries[i - 1].1);
            }
            i -= 1;
        }
        proof {
            lemma_entries_map_dom(self.entries@, key@);
        }
        None
    }

    pub fn contains_key(&self, key: &[char]) -> (r: bool)
        ensures
            r == self@.contains_key(key@),
    {
        match self.get(key) {
            Some(_) => true,
            None => false,
        }
    }

    /// Sets `key` to `value` unless it already has a value (`entry().or_insert`).
    pub fn or_insert(&mut self, key: Vec<char>, value: V)
        ensures
            final(self)@ == (if old(self)@.contains_key(key@) {
                old(self)@
            } else {
                old(self)@.insert(key@, value)
            }),
    {
        if !self.contains_key(key.as_slice()) {
            self.insert(key, value);
        }
    }
}

/// Putting an entry in front of a list changes the map only where the rest
/// of the list has no entry for the key.
pub proof fn lemma_entries_map_front<V>(x: (Vec<char>, V), t: Seq<(Vec<char>, V)>)
    ensures
        entries_map(seq![x] + t) == (if entries_map(t).contains_key(x.0@) {
            entries_map(t)
        } else {
            entries_map(t).insert(x.0@, x.1)
        }),
    decreases t.len(),
{
    let u = seq![x] + t;
    if t.len() == 0 {
        assert(u.drop_last() =~= Seq::<(Vec<char>, V)>::empty());
        assert(u.last() == x);
        assert(entries_map(u.drop_last()) == Map::<Seq<char>, V>::empty());
        assert(t =~= Seq::<(Vec<char>, V)>::empty());
        assert(entries_map(t) == Map::<Seq<char>, V>::empty());
        assert(entries_map(u) =~= Map::<Seq<char>, V>::empty().insert(x.0@, x.1));
    } else {
        assert(u.drop_last() =~= seq![x] + t.drop_last());
        assert(u.last() == t.last());
        lemma_entries_map_front(x, t.drop_last());
        assert(entries_map(u) =~= (if entries_map(t).contains_key(x.0@) {
            entries_map(t)
        } else {
            entries_map(t).insert(x.0@, x.1)
        }));
    }
}

/// The value of the map at a key is that of the last entry holding the key.
pub proof fn lemma_last_match_wins<V>(s: Seq<(Vec<char>, V)>, i: int, k: Seq<char>)
    requires
        0 <= i < s.len(),
        s[i].0@ == k,
        forall|j: int| i < j < s.len() ==> (#[trigger] s[j]).0@ != k,
    ensures
        entries_map(s).contains_key(k),
        entries_map(s)[k] == s[i].1,
    decreases s.len(),
{
    if i < s.len() - 1 {
        lemma_last_match_wins(s.drop_last(), i, k);
        assert(s.last() == s[s.len() - 1]);
    }
}

/// No two entries share a key.
pub open spec fn keys_unique<V>(s: Seq<(Vec<char>, V)>) -> bool {
    forall|i: int, j: int| 0 <= i < j < s.len() ==> (#[trigger] s[i]).0@ != (#[trigger] s[j]).0@
}

/// With unique keys, the entry of a key gives its value.
pub proof fn lemma_unique_entry_value<V>(s: Seq<(Vec<char>, V)>, i: int)
    requires
        keys_unique(s),
        0 <= i < s.len(),
    ensures
        entries_map(s).contains_key(s[i].0@),
        entries_map(s)[s[i].0@] == s[i].1,
{
    assert forall|j: int| i < j < s.len() implies (#[trigger] s[j]).0@ != s[i].0@ by {
        assert(s[i].0@ != s[j].0@);
    }
    lemma_last_match_wins(s, i, s[i].0@);
}

/// With unique keys, a table has as many keys as entries.
pub proof fn lemma_unique_len<V>(s: Seq<(Vec<char>, V)>)
    requires
        keys_unique(s),
    ensures
        entries_map(s).dom().len() == s.len(),
    decreases s.len(),
{
    if s.len() > 0 {
        let d = s.drop_last();
        assert(keys_unique(d)) by {
            assert forall|i: int, j: int| 0 <= i < j < d.len() implies (#[trigger] d[i]).0@ != (
            #[trigger] d[j]).0@ by {
                assert(d[i] == s[i] && d[j] == s[j]);
            }
        }
        lemma_unique_len(d);
        lemma_entries_map_finite(d);
        lemma_entries_map_dom(d, s.last().0@);
        if entries_map(d).contains_key(s.last().0@) {
            let i = choose|i: int| 0 <= i < d.len() && (#[trigger] d[i]).0@ == s.last().0@;
            assert(s[i] == d[i]);
            assert(s[s.len() - 1] == s.last());
        }
    }
}

/// Sets `key` to `value` in entries whose keys are unique, replacing the
/// entry of `key` when there is one; the keys stay unique.
fn set_entry<V>(entries: &mut Vec<(Vec<char>, V)>, key: Vec<char>, value: V)
    requires
        keys_unique(old(entries)@),
    ensures
        keys_unique(final(entries)@),
        entries_map(final(entries)@) == entries_map(old(entries)@).insert(key@, value),
{
    let ghost s0 = entries@;
    let mut i: usize = 0;
    while i < entries.len()
        invariant
            entries@ == s0,
            s0 == old(entries)@,
            keys_unique(s0),
            i <= s0.len(),
            forall|j: int| 0 <= j < i ==> (#[trigger] s0[j]).0@ != key@,
        decreases s0.len() - i,
    {
        if chars_eq(entries[i].0.as_slice(), key.as_slice()) {
            let ghost k = key@;
            let ghost v = value;
            entries.set(i, (key, value));
            let ghost s1 = entries@;
            assert(s1[i as int].1 == v);
            assert(keys_unique(s1)) by {
                assert forall|a: int, b: int| 0 <= a < b < s1.len() implies (#[trigger] s1[a]).0@ != (
                #[trigger] s1[b]).0@ by {
                    assert(s0[a].0@ != s0[b].0@);
                    if a == i {
                        assert(s1[a].0@ == s0[a].0@);
                    }
                    if b == i {
                        assert(s1[b].0@ == s0[b].0@);
                    }
                }
            }
            assert(entries_map(s1) =~= entries_map(s0).insert(k, s1[i as int].1)) by {
                assert forall|q: Seq<char>| #[trigger] entries_map(s1).contains_key(q)
                    <==> entries_map(s0).insert(k, s1[i as int].1).contains_key(q) by {
                    lemma_entries_map_dom(s1, q);
                    lemma_entries_map_dom(s0, q);
                    if entries_map(s0).contains_key(q) {
                        let j = choose|j: int| 0 <= j < s0.len() && (#[trigger] s0[j]).0@ == q;
                        assert(s1[j].0@ == q);
                    }
                    if entries_map(s1).contains_key(q) {
                        let j = choose|j: int| 0 <= j < s1.len() && (#[trigger] s1[j]).0@ == q;
                        assert(s0[j].0@ == q);
                    }
                    if q == k {
                        assert(s1[i as int].0@ == q);
                    }
                }
                assert forall|q: Seq<char>| #[trigger] entries_map(s1).contains_key(q) implies entries_map(s1)[q]
                    == entries_map(s0).insert(k, s1[i as int].1)[q] by {
                    lemma_entries_map_dom(s1, q);
                    let j = choose|j: int| 0 <= j < s1.len() && (#[trigger] s1[j]).0@ == q;
                    lemma_unique_entry_value(s1, j);
                    if q != k {
                        assert(j != i);
                        assert(s0[j] == s1[j]);
                        lemma_unique_entry_value(s0, j);
                    }
                }
            }
            return;
        }
        i += 1;
    }
    entries.push((key, value));
    assert(entries@.drop_last() =~= s0);
    assert(keys_unique(entries@)) by {
        let s1 = entries@;
        assert forall|a: int, b: int| 0 <= a < b < s1.len() implies (#[trigger] s1[a]).0@ != (
        #[trigger] s1[b]).0@ by {
            if b == s1.len() - 1 {
                assert(s1[a] == s0[a]);
            } else {
                assert(s1[a] == s0[a] && s1[b] == s0[b]);
            }
        }
    }
}

} // verus!

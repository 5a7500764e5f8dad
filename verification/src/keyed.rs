//! A map from text keys to values that keeps its keys in ascending order.
//!
//! The configuration keeps one entry per device and one per program, keyed
//! by text, and lists them in key order so the saved file stays stable from
//! one save to the next. Entries live in a vector sorted by `seq_lt`, which
//! also rules out duplicate keys.

use vstd::prelude::*;

use crate::text::{
    compare_keys, lemma_seq_lt_asymmetric, lemma_seq_lt_irreflexive, lemma_seq_lt_total,
    lemma_seq_lt_transitive, seq_lt, KeyOrder,
};

verus! {

/// Whether the keys of `s` are strictly ascending.
pub open spec fn keys_ascending<V>(s: Seq<(String, V)>) -> bool {
    forall|i: int, j: int| 0 <= i < j < s.len() ==> seq_lt(#[trigger] s[i].0@, #[trigger] s[j].0@)
}

/// Whether `s` lists exactly the entries of `m`, in ascending key order.
pub open spec fn lists_map<V: View>(s: Seq<(String, V)>, m: Map<Seq<char>, V::V>) -> bool {
    &&& keys_ascending(s)
    &&& forall|i: int|
        0 <= i < s.len() ==> m.contains_key(#[trigger] s[i].0@) && m[s[i].0@] == s[i].1@
    &&& forall|k: Seq<char>| m.contains_key(k) ==> exists|i: int| 0 <= i < s.len() && #[trigger] s[i].0@ == k
}

/// The map that a sequence of entries with distinct keys stands for.
pub open spec fn seq_view<V: View>(s: Seq<(String, V)>) -> Map<Seq<char>, V::V> {
    Map::new(
        |k: Seq<char>| exists|i: int| 0 <= i < s.len() && #[trigger] s[i].0@ == k,
        |k: Seq<char>| s[seq_index_of(s, k)].1@,
    )
}

/// Some position of `k` in `s`, if it occurs.
pub open spec fn seq_index_of<V>(s: Seq<(String, V)>, k: Seq<char>) -> int {
    choose|i: int| 0 <= i < s.len() && #[trigger] s[i].0@ == k
}

/// In a sequence with ascending keys, each entry is what its key maps to.
pub proof fn lemma_seq_view_entry<V: View>(s: Seq<(String, V)>, i: int)
    requires
        keys_ascending(s),
        0 <= i < s.len(),
    ensures
        seq_view(s).contains_key(s[i].0@),
        seq_view(s)[s[i].0@] == s[i].1@,
{
    let k = s[i].0@;
    assert(s[i].0@ == k);
    let j = seq_index_of(s, k);
    if j != i {
        lemma_seq_lt_irreflexive(k);
        if j < i {
            assert(seq_lt(s[j].0@, s[i].0@));
        } else {
            assert(seq_lt(s[i].0@, s[j].0@));
        }
    }
    assert(j == i);
    broadcast use vstd::map_lib::lemma_map_new_values;
    assert(seq_view(s).contains_key(k));
}

/// A sequence with ascending keys lists the map it stands for.
pub proof fn lemma_seq_view_lists<V: View>(s: Seq<(String, V)>)
    requires
        keys_ascending(s),
    ensures
        lists_map(s, seq_view(s)),
{
    assert forall|i: int| 0 <= i < s.len() implies seq_view(s).contains_key(#[trigger] s[i].0@)
        && seq_view(s)[s[i].0@] == s[i].1@ by {
        lemma_seq_view_entry(s, i);
    }
}

/// A sequence that lists `m` stands for `m`.
pub proof fn lemma_lists_map_view<V: View>(s: Seq<(String, V)>, m: Map<Seq<char>, V::V>)
    requires
        lists_map(s, m),
    ensures
        seq_view(s) == m,
{
    assert forall|k: Seq<char>| #[trigger] seq_view(s).contains_key(k) <==> m.contains_key(k) by {
        if seq_view(s).contains_key(k) {
            let i = choose|i: int| 0 <= i < s.len() && #[trigger] s[i].0@ == k;
            assert(m.contains_key(s[i].0@));
        }
    }
    assert forall|k: Seq<char>| #[trigger] seq_view(s).contains_key(k) implies seq_view(s)[k]
        == m[k] by {
        let i = choose|i: int| 0 <= i < s.len() && #[trigger] s[i].0@ == k;
        lemma_seq_view_entry(s, i);
    }
    assert(seq_view(s) =~= m);
}

/// Ascending keys, and no key anywhere equal to `k`, in the two halves
/// around position `i`.
pub open spec fn split_around<V>(s: Seq<(String, V)>, i: int, k: Seq<char>) -> bool {
    &&& 0 <= i <= s.len()
    &&& forall|j: int| 0 <= j < i ==> seq_lt(#[trigger] s[j].0@, k)
    &&& forall|j: int| i <= j < s.len() ==> seq_lt(k, #[trigger] s[j].0@)
}

pub proof fn lemma_insert_new<V: View>(s: Seq<(String, V)>, i: int, e: (String, V))
    requires
        keys_ascending(s),
        split_around(s, i, e.0@),
    ensures
        keys_ascending(s.insert(i, e)),
        seq_view(s.insert(i, e)) == seq_view(s).insert(e.0@, e.1@),
{
    let n = s.insert(i, e);
    let k = e.0@;
    let m = seq_view(s).insert(k, e.1@);
    lemma_seq_view_lists(s);
    assert forall|a: int, b: int| 0 <= a < b < n.len() implies seq_lt(
        #[trigger] n[a].0@,
        #[trigger] n[b].0@,
    ) by {
        if b < i {
            assert(seq_lt(s[a].0@, s[b].0@));
        } else if b == i {
            assert(seq_lt(s[a].0@, k));
        } else if a < i {
            assert(seq_lt(s[a].0@, k));
            assert(seq_lt(k, s[b - 1].0@));
            lemma_seq_lt_transitive(s[a].0@, k, s[b - 1].0@);
        } else if a == i {
            assert(seq_lt(k, s[b - 1].0@));
        } else {
            assert(seq_lt(s[a - 1].0@, s[b - 1].0@));
        }
    }
    assert forall|j: int| 0 <= j < n.len() implies m.contains_key(#[trigger] n[j].0@) && m[n[j].0@]
        == n[j].1@ by {
        if j < i {
            assert(n[j] == s[j]);
            assert(seq_lt(s[j].0@, k));
            lemma_seq_lt_irreflexive(k);
        } else if j > i {
            assert(n[j] == s[j - 1]);
            assert(seq_lt(k, s[j - 1].0@));
            lemma_seq_lt_irreflexive(k);
        }
    }
    assert forall|k2: Seq<char>| m.contains_key(k2) implies exists|j: int|
        0 <= j < n.len() && #[trigger] n[j].0@ == k2 by {
        if k2 == k {
            assert(n[i].0@ == k2);
        } else {
            let j = choose|j: int| 0 <= j < s.len() && #[trigger] s[j].0@ == k2;
            if j < i {
                assert(n[j] == s[j]);
            } else {
                assert(n[j + 1] == s[j]);
            }
        }
    }
    lemma_lists_map_view(n, m);
}

proof fn lemma_replace_at<V: View>(s: Seq<(String, V)>, i: int, e: (String, V))
    requires
        keys_ascending(s),
        0 <= i < s.len(),
        s[i].0@ == e.0@,
    ensures
        keys_ascending(s.update(i, e)),
        seq_view(s.update(i, e)) == seq_view(s).insert(e.0@, e.1@),
{
    let n = s.update(i, e);
    let k = e.0@;
    let m = seq_view(s).insert(k, e.1@);
    lemma_seq_view_lists(s);
    assert forall|a: int, b: int| 0 <= a < b < n.len() implies seq_lt(
        #[trigger] n[a].0@,
        #[trigger] n[b].0@,
    ) by {
        assert(seq_lt(s[a].0@, s[b].0@));
    }
    assert forall|j: int| 0 <= j < n.len() implies m.contains_key(#[trigger] n[j].0@) && m[n[j].0@]
        == n[j].1@ by {
        if j != i {
            lemma_seq_lt_irreflexive(k);
            if j < i {
                assert(seq_lt(s[j].0@, s[i].0@));
            } else {
                assert(seq_lt(s[i].0@, s[j].0@));
            }
        }
    }
    assert forall|k2: Seq<char>| m.contains_key(k2) implies exists|j: int|
        0 <= j < n.len() && #[trigger] n[j].0@ == k2 by {
        if k2 == k {
            assert(n[i].0@ == k2);
        } else {
            let j = choose|j: int| 0 <= j < s.len() && #[trigger] s[j].0@ == k2;
            assert(n[j] == s[j]);
        }
    }
    lemma_lists_map_view(n, m);
}

proof fn lemma_remove_at<V: View>(s: Seq<(String, V)>, i: int)
    requires
        keys_ascending(s),
        0 <= i < s.len(),
    ensures
        keys_ascending(s.remove(i)),
        seq_view(s.remove(i)) == seq_view(s).remove(s[i].0@),
{
    let n = s.remove(i);
    let k = s[i].0@;
    let m = seq_view(s).remove(k);
    lemma_seq_view_lists(s);
    assert forall|a: int, b: int| 0 <= a < b < n.len() implies seq_lt(
        #[trigger] n[a].0@,
        #[trigger] n[b].0@,
    ) by {
        let a2 = if a < i { a } else { a + 1 };
        let b2 = if b < i { b } else { b + 1 };
        assert(n[a] == s[a2] && n[b] == s[b2]);
        assert(seq_lt(s[a2].0@, s[b2].0@));
    }
    assert forall|j: int| 0 <= j < n.len() implies m.contains_key(#[trigger] n[j].0@) && m[n[j].0@]
        == n[j].1@ by {
        let j2 = if j < i { j } else { j + 1 };
        assert(n[j] == s[j2]);
        lemma_seq_lt_irreflexive(k);
        if j2 < i {
            assert(seq_lt(s[j2].0@, s[i].0@));
        } else {
            assert(seq_lt(s[i].0@, s[j2].0@));
        }
    }
    assert forall|k2: Seq<char>| m.contains_key(k2) implies exists|j: int|
        0 <= j < n.len() && #[trigger] n[j].0@ == k2 by {
        let j = choose|j: int| 0 <= j < s.len() && #[trigger] s[j].0@ == k2;
        assert(j != i);
        if j < i {
            assert(n[j] == s[j]);
        } else {
            assert(n[j - 1] == s[j]);
        }
    }
    lemma_lists_map_view(n, m);
}

/// A map from text keys to values, listed in ascending key order.
pub struct KeyedList<V> {
    entries: Vec<(String, V)>,
}

impl<V: View> View for KeyedList<V> {
    type V = Map<Seq<char>, V::V>;

    closed spec fn view(&self) -> Map<Seq<char>, V::V> {
        seq_view(self.entries@)
    }
}

impl<V> KeyedList<V> {
    #[verifier::type_invariant]
    closed spec fn ascending(&self) -> bool {
        keys_ascending(self.entries@)
    }
}

impl<V: View> KeyedList<V> {
    /// Where `key` is, or where it would go.
    fn position(&self, key: &str) -> (r: (usize, bool))
        ensures
            r.1 ==> r.0 < self.entries@.len() && self.entries@[r.0 as int].0@ == key@,
            !r.1 ==> split_around(self.entries@, r.0 as int, key@),
    {
        proof {
            use_type_invariant(self);
        }
        let n = self.entries.len();
        let mut i: usize = 0;
        while i < n
            invariant
                n == self.entries@.len(),
                i <= n,
                keys_ascending(self.entries@),
                forall|j: int| 0 <= j < i ==> seq_lt(#[trigger] self.entries@[j].0@, key@),
            decreases n - i,
        {
            let order = compare_keys(self.entries[i].0.as_str(), key);
            match order {
                KeyOrder::Less => {},
                KeyOrder::Equal => {
                    return (i, true);
                },
                KeyOrder::Greater => {
                    proof {
                        assert forall|j: int| i <= j < n implies seq_lt(
                            key@,
                            #[trigger] self.entries@[j].0@,
                        ) by {
                            if j > i {
                                assert(seq_lt(self.entries@[i as int].0@, self.entries@[j].0@));
                                lemma_seq_lt_transitive(
                                    key@,
                                    self.entries@[i as int].0@,
                                    self.entries@[j].0@,
                                );
                            }
                        }
                    }
                    return (i, false);
                },
            }
            i = i + 1;
        }
        (i, false)
    }

    /// An empty map.
    pub fn new() -> (r: Self)
        ensures
            r@ == Map::<Seq<char>, V::V>::empty(),
    {
        let r = KeyedList { entries: Vec::new() };
        assert(r@ =~= Map::<Seq<char>, V::V>::empty());
        r
    }

    /// Number of entries.
    pub fn len(&self) -> (r: usize)
        ensures
            r == self@.dom().len(),
    {
        proof {
            use_type_invariant(self);
            lemma_seq_view_len(self.entries@);
        }
        self.entries.len()
    }

    /// Whether the map has no entries.
    pub fn is_empty(&self) -> (r: bool)
        ensures
            r <==> self@ == Map::<Seq<char>, V::V>::empty(),
    {
        if self.entries.len() == 0 {
            assert(self@ =~= Map::<Seq<char>, V::V>::empty());
            true
        } else {
            proof {
                use_type_invariant(self);
                lemma_seq_view_entry(self.entries@, 0);
                assert(!Map::<Seq<char>, V::V>::empty().contains_key(self.entries@[0].0@));
            }
            false
        }
    }

    /// The value stored under `key`.
    pub fn get(&self, key: &str) -> (r: Option<&V>)
        ensures
            match r {
                Some(v) => self@.contains_key(key@) && v@ == self@[key@],
                None => !self@.contains_key(key@),
            },
    {
        proof {
            use_type_invariant(self);
        }
        let (i, found) = self.position(key);
        if found {
            proof {
                lemma_seq_view_entry(self.entries@, i as int);
            }
            Some(&self.entries[i].1)
        } else {
            proof {
                lemma_not_present(self.entries@, i as int, key@);
            }
            None
        }
    }

    /// Whether `key` has an entry.
    pub fn contains_key(&self, key: &str) -> (r: bool)
        ensures
            r == self@.contains_key(key@),
    {
        self.get(key).is_some()
    }

    /// Store `value` under `key`, handing back what was there before.
    pub fn insert(&mut self, key: String, value: V) -> (r: Option<V>)
        ensures
            final(self)@ == old(self)@.insert(key@, value@),
            match r {
                Some(v) => old(self)@.contains_key(key@) && v@ == old(self)@[key@],
                None => !old(self)@.contains_key(key@),
            },
    {
        proof {
            use_type_invariant(&*self);
        }
        let (i, found) = self.position(key.as_str());
        let ghost s = self.entries@;
        let mut entries: Vec<(String, V)> = Vec::new();
        std::mem::swap(&mut entries, &mut self.entries);
        if found {
            proof {
                lemma_seq_view_entry(s, i as int);
            }
            let (_, previous) = entries.remove(i);
            entries.insert(i, (key, value));
            proof {
                assert(entries@ =~= s.update(i as int, entries@[i as int]));
                lemma_replace_at(s, i as int, entries@[i as int]);
            }
            self.entries = entries;
            Some(previous)
        } else {
            proof {
                lemma_not_present(s, i as int, key@);
            }
            entries.insert(i, (key, value));
            proof {
                lemma_insert_new(s, i as int, entries@[i as int]);
            }
            self.entries = entries;
            None
        }
    }

    /// Remove the entry under `key`, handing it back.
    pub fn remove(&mut self, key: &str) -> (r: Option<V>)
        ensures
            final(self)@ == old(self)@.remove(key@),
            match r {
                Some(v) => old(self)@.contains_key(key@) && v@ == old(self)@[key@],
                None => !old(self)@.contains_key(key@),
            },
    {
        proof {
            use_type_invariant(&*self);
        }
        let (i, found) = self.position(key);
        let ghost s = self.entries@;
        if found {
            let mut entries: Vec<(String, V)> = Vec::new();
            std::mem::swap(&mut entries, &mut self.entries);
            proof {
                lemma_seq_view_entry(s, i as int);
                lemma_remove_at(s, i as int);
            }
            let (_, previous) = entries.remove(i);
            self.entries = entries;
            Some(previous)
        } else {
            proof {
                lemma_not_present(s, i as int, key@);
                assert(self@ =~= self@.remove(key@));
            }
            None
        }
    }

    /// All entries in ascending key order.
    pub fn as_slice(&self) -> (r: &[(String, V)])
        ensures
            lists_map(r@, self@),
    {
        proof {
            use_type_invariant(self);
            lemma_seq_view_lists(self.entries@);
        }
        self.entries.as_slice()
    }

    /// All entries in ascending key order, by value.
    pub fn into_vec(self) -> (r: Vec<(String, V)>)
        ensures
            lists_map(r@, self@),
    {
        proof {
            use_type_invariant(&self);
            lemma_seq_view_lists(self.entries@);
        }
        let KeyedList { entries } = self;
        entries
    }
}

proof fn lemma_not_present<V: View>(s: Seq<(String, V)>, i: int, k: Seq<char>)
    requires
        split_around(s, i, k),
    ensures
        !seq_view(s).contains_key(k),
{
    assert forall|j: int| 0 <= j < s.len() implies #[trigger] s[j].0@ != k by {
        lemma_seq_lt_irreflexive(k);
    }
}

proof fn lemma_seq_view_len<V: View>(s: Seq<(String, V)>)
    requires
        keys_ascending(s),
    ensures
        seq_view(s).dom().finite(),
        seq_view(s).dom().len() == s.len(),
{
    let keys = s.map_values(|e: (String, V)| e.0@);
    assert forall|i: int, j: int| 0 <= i < j < keys.len() implies keys[i] != keys[j] by {
        assert(seq_lt(s[i].0@, s[j].0@));
        lemma_seq_lt_irreflexive(keys[i]);
    }
    keys.unique_seq_to_set();
    assert forall|k: Seq<char>| seq_view(s).dom().contains(k) implies keys.to_set().contains(k) by {
        let i = choose|i: int| 0 <= i < s.len() && #[trigger] s[i].0@ == k;
        assert(keys[i] == k);
    }
    assert forall|k: Seq<char>| keys.to_set().contains(k) implies seq_view(s).dom().contains(k) by {
        let i = choose|i: int| 0 <= i < keys.len() && keys[i] == k;
        assert(s[i].0@ == k);
    }
    assert(seq_view(s).dom() =~= keys.to_set());
}

} // verus!

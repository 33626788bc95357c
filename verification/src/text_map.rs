//! An ordered map from text keys to text values, kept sorted by key.
use crate::text::{lemma_seq_lt_asymmetric, lemma_seq_lt_irreflexive, lemma_seq_lt_transitive, seq_lt, str_order};
use vstd::prelude::*;

verus! {

/// Entries sorted strictly by key.
pub open spec fn sorted_keys(e: Seq<(Seq<char>, Seq<char>)>) -> bool {
    forall|i: int, j: int| 0 <= i < j < e.len() ==> seq_lt(#[trigger] e[i].0, #[trigger] e[j].0)
}

/// The value stored under a key, if any.
pub open spec fn lookup(e: Seq<(Seq<char>, Seq<char>)>, key: Seq<char>) -> Option<Seq<char>>
    decreases e.len(),
{
    if e.len() == 0 {
        None
    } else if e.last().0 == key {
        Some(e.last().1)
    } else {
        lookup(e.drop_last(), key)
    }
}

/// The entries as a map.
pub open spec fn entries_map(e: Seq<(Seq<char>, Seq<char>)>) -> Map<Seq<char>, Seq<char>> {
    Map::new(|k: Seq<char>| lookup(e, k) is Some, |k: Seq<char>| lookup(e, k)->0)
}

/// Text-keyed map with deterministic (sorted) iteration order.
#[derive(Debug, PartialEq, Eq, Hash)]
pub struct TextMap {
    entries: Vec<(String, String)>,
}

/// The view of the stored entries.
pub open spec fn entry_views(e: Seq<(String, String)>) -> Seq<(Seq<char>, Seq<char>)> {
    Seq::new(e.len(), |i: int| (e[i].0@, e[i].1@))
}

impl View for TextMap {
    type V = Seq<(Seq<char>, Seq<char>)>;

    closed spec fn view(&self) -> Seq<(Seq<char>, Seq<char>)> {
        entry_views(self.entries@)
    }
}

proof fn lemma_lookup_found(e: Seq<(Seq<char>, Seq<char>)>, i: int)
    requires
        0 <= i < e.len(),
        sorted_keys(e),
    ensures
        lookup(e, e[i].0) == Some(e[i].1),
    decreases e.len(),
{
    if i < e.len() - 1 {
        assert(seq_lt(e[i].0, e[e.len() - 1].0));
        lemma_seq_lt_irreflexive(e[i].0);
        assert(e.drop_last()[i] == e[i]);
        lemma_lookup_found(e.drop_last(), i);
    }
}

proof fn lemma_lookup_absent(e: Seq<(Seq<char>, Seq<char>)>, key: Seq<char>)
    requires
        forall|i: int| 0 <= i < e.len() ==> (#[trigger] e[i]).0 != key,
    ensures
        lookup(e, key) is None,
    decreases e.len(),
{
    if e.len() > 0 {
        assert(e[e.len() - 1].0 != key);
        assert forall|i: int| 0 <= i < e.drop_last().len() implies (#[trigger] e.drop_last()[i]).0 != key by {
            assert(e.drop_last()[i] == e[i]);
        }
        lemma_lookup_absent(e.drop_last(), key);
    }
}

proof fn lemma_lookup_some(e: Seq<(Seq<char>, Seq<char>)>, key: Seq<char>)
    requires
        lookup(e, key) is Some,
    ensures
        exists|i: int| 0 <= i < e.len() && (#[trigger] e[i]).0 == key && e[i].1 == lookup(e, key)->0,
    decreases e.len(),
{
    if e.last().0 == key {
        assert(e[e.len() - 1].0 == key);
    } else {
        lemma_lookup_some(e.drop_last(), key);
        let i = choose|i: int| 0 <= i < e.drop_last().len() && (#[trigger] e.drop_last()[i]).0 == key && e.drop_last()[i].1 == lookup(e.drop_last(), key)->0;
        assert(e[i] == e.drop_last()[i]);
    }
}

/// A key in the map of entries is the key of some entry.
pub proof fn lemma_lookup_in(e: Seq<(Seq<char>, Seq<char>)>, key: Seq<char>)
    requires
        entries_map(e).dom().contains(key),
    ensures
        exists|i: int| 0 <= i < e.len() && (#[trigger] e[i]).0 == key,
{
    lemma_lookup_some(e, key);
}

/// Two key-sorted entry sequences with the same map are the same sequence.
pub proof fn lemma_sorted_entries_unique(e1: Seq<(Seq<char>, Seq<char>)>, e2: Seq<(Seq<char>, Seq<char>)>)
    requires
        sorted_keys(e1),
        sorted_keys(e2),
        entries_map(e1) == entries_map(e2),
    ensures
        e1 == e2,
    decreases e1.len(),
{
    assert forall|x: (Seq<char>, Seq<char>)| e1.contains(x) <==> e2.contains(x) by {
        if e1.contains(x) {
            let i = choose|i: int| 0 <= i < e1.len() && e1[i] == x;
            lemma_lookup_found(e1, i);
            assert(entries_map(e1).dom().contains(x.0));
            assert(entries_map(e2)[x.0] == x.1);
            lemma_lookup_some(e2, x.0);
            let j = choose|j: int| 0 <= j < e2.len() && (#[trigger] e2[j]).0 == x.0 && e2[j].1 == lookup(e2, x.0)->0;
            assert(e2[j] == x);
        }
        if e2.contains(x) {
            let i = choose|i: int| 0 <= i < e2.len() && e2[i] == x;
            lemma_lookup_found(e2, i);
            assert(entries_map(e2).dom().contains(x.0));
            assert(entries_map(e1)[x.0] == x.1);
            lemma_lookup_some(e1, x.0);
            let j = choose|j: int| 0 <= j < e1.len() && (#[trigger] e1[j]).0 == x.0 && e1[j].1 == lookup(e1, x.0)->0;
            assert(e1[j] == x);
        }
    }
    lemma_sorted_same_elements(e1, e2);
}

proof fn lemma_sorted_same_elements(x: Seq<(Seq<char>, Seq<char>)>, y: Seq<(Seq<char>, Seq<char>)>)
    requires
        sorted_keys(x),
        sorted_keys(y),
        forall|z: (Seq<char>, Seq<char>)| x.contains(z) <==> y.contains(z),
    ensures
        x == y,
    decreases x.len(),
{
    if x.len() == 0 {
        if y.len() > 0 {
            assert(y.contains(y[0]));
        }
        assert(x =~= y);
    } else {
        assert(x.contains(x[0]));
        let j = choose|j: int| 0 <= j < y.len() && y[j] == x[0];
        assert(y.contains(y[0]));
        let k = choose|k: int| 0 <= k < x.len() && x[k] == y[0];
        if j > 0 {
            assert(seq_lt(y[0].0, y[j].0));
            lemma_seq_lt_irreflexive(x[0].0);
            if k > 0 {
                assert(seq_lt(x[0].0, x[k].0));
                lemma_seq_lt_asymmetric(x[0].0, x[k].0);
            }
            assert(false);
        }
        let xt = x.drop_first();
        let yt = y.drop_first();
        assert forall|z: (Seq<char>, Seq<char>)| xt.contains(z) <==> yt.contains(z) by {
            if xt.contains(z) {
                let a = choose|a: int| 0 <= a < xt.len() && xt[a] == z;
                assert(x[a + 1] == z);
                assert(seq_lt(x[0].0, x[a + 1].0));
                lemma_seq_lt_irreflexive(z.0);
                assert(y.contains(z));
                let b = choose|b: int| 0 <= b < y.len() && y[b] == z;
                assert(b != 0);
                assert(yt[b - 1] == z);
            }
            if yt.contains(z) {
                let a = choose|a: int| 0 <= a < yt.len() && yt[a] == z;
                assert(y[a + 1] == z);
                assert(seq_lt(y[0].0, y[a + 1].0));
                lemma_seq_lt_irreflexive(z.0);
                assert(x.contains(z));
                let b = choose|b: int| 0 <= b < x.len() && x[b] == z;
                assert(b != 0);
                assert(xt[b - 1] == z);
            }
        }
        assert forall|i: int, j2: int| 0 <= i < j2 < xt.len() implies seq_lt(#[trigger] xt[i].0, #[trigger] xt[j2].0) by {
            assert(xt[i] == x[i + 1] && xt[j2] == x[j2 + 1]);
        }
        assert forall|i: int, j2: int| 0 <= i < j2 < yt.len() implies seq_lt(#[trigger] yt[i].0, #[trigger] yt[j2].0) by {
            assert(yt[i] == y[i + 1] && yt[j2] == y[j2 + 1]);
        }
        lemma_sorted_same_elements(xt, yt);
        assert forall|i: int| 0 <= i < x.len() implies x[i] == y[i] by {
            if i > 0 {
                assert(x[i] == xt[i - 1]);
                assert(y[i] == yt[i - 1]);
            }
        }
        assert(x =~= y);
    }
}

/// The entries of a key-sorted map.
pub open spec fn sorted_entries(m: Map<Seq<char>, Seq<char>>) -> Seq<(Seq<char>, Seq<char>)> {
    choose|e: Seq<(Seq<char>, Seq<char>)>| sorted_keys(e) && entries_map(e) == m
}

/// Key-sorted entries are the sorted entries of their map.
pub proof fn lemma_view_is_sorted_entries(e: Seq<(Seq<char>, Seq<char>)>)
    requires
        sorted_keys(e),
    ensures
        e == sorted_entries(entries_map(e)),
{
    assert(sorted_keys(e) && entries_map(e) == entries_map(e));
    lemma_sorted_entries_unique(e, sorted_entries(entries_map(e)));
}

impl TextMap {
    #[verifier::type_invariant]
    spec fn inv(self) -> bool {
        sorted_keys(entry_views(self.entries@))
    }

    /// An empty map.
    pub fn new() -> (r: TextMap)
        ensures
            r@ == Seq::<(Seq<char>, Seq<char>)>::empty(),
    {
        let r = TextMap { entries: Vec::new() };
        assert(entry_views(r.entries@) =~= Seq::<(Seq<char>, Seq<char>)>::empty());
        r
    }

    /// Number of entries.
    pub fn len(&self) -> (n: usize)
        ensures
            n == self@.len(),
    {
        self.entries.len()
    }

    /// Whether the map has no entries.
    pub fn is_empty(&self) -> (b: bool)
        ensures
            b == (self@.len() == 0),
    {
        self.entries.len() == 0
    }

    /// The entries, in key order.
    pub fn entries(&self) -> (r: &Vec<(String, String)>)
        ensures
            entry_views(r@) == self@,
            sorted_keys(self@),
    {
        proof {
            use_type_invariant(self);
        }
        &self.entries
    }

    /// The value stored under `key`.
    pub fn get(&self, key: &str) -> (r: Option<&String>)
        ensures
            match r {
                Some(v) => lookup(self@, key@) == Some(v@),
                None => lookup(self@, key@) is None,
            },
    {
        proof {
            use_type_invariant(self);
        }
        let mut i: usize = 0;
        while i < self.entries.len()
            invariant
                i <= self.entries.len(),
                sorted_keys(entry_views(self.entries@)),
                forall|k: int| 0 <= k < i ==> (#[trigger] entry_views(self.entries@)[k]).0 != key@,
            decreases self.entries.len() - i,
        {
            if str_order(self.entries[i].0.as_str(), key) == 0 {
                proof {
                    lemma_lookup_found(entry_views(self.entries@), i as int);
                }
                return Some(&self.entries[i].1);
            }
            i = i + 1;
        }
        proof {
            lemma_lookup_absent(entry_views(self.entries@), key@);
        }
        None
    }

    /// Whether `key` has an entry.
    pub fn contains_key(&self, key: &str) -> (b: bool)
        ensures
            b == (lookup(self@, key@) is Some),
    {
        self.get(key).is_some()
    }

    /// A copy of the map.
    pub fn duplicate(&self) -> (r: TextMap)
        ensures
            r@ == self@,
    {
        proof {
            use_type_invariant(self);
        }
        let mut entries: Vec<(String, String)> = Vec::new();
        let mut i: usize = 0;
        while i < self.entries.len()
            invariant
                i <= self.entries.len(),
                entries@.len() == i,
                forall|k: int| 0 <= k < i ==> (#[trigger] entries@[k]).0@ == self.entries@[k].0@ && entries@[k].1@ == self.entries@[k].1@,
            decreases self.entries.len() - i,
        {
            let a = self.entries[i].0.clone();
            let b = self.entries[i].1.clone();
            entries.push((a, b));
            i = i + 1;
        }
        assert(entry_views(entries@) =~= entry_views(self.entries@));
        TextMap { entries }
    }

    /// Stores `value` under `key`, returning the value it replaces.
    pub fn insert(&mut self, key: String, value: String) -> (r: Option<String>)
        ensures
            match r {
                Some(v) => lookup(old(self)@, key@) == Some(v@),
                None => lookup(old(self)@, key@) is None,
            },
            entries_map(final(self)@) == entries_map(old(self)@).insert(key@, value@),
            final(self)@.len() == old(self)@.len() + (if r is Some { 0int } else { 1int }),
    {
        proof {
            use_type_invariant(&*self);
        }
        let ghost e0 = self@;
        let ghost old_entries = self.entries@;
        let mut i: usize = 0;
        while i < self.entries.len()
            invariant
                i <= self.entries.len(),
                e0 == entry_views(self.entries@),
                old_entries == self.entries@,
                e0 == old(self)@,
                sorted_keys(e0),
                forall|k: int| 0 <= k < i ==> seq_lt((#[trigger] e0[k]).0, key@),
            ensures
                i <= self.entries.len(),
                e0 == entry_views(self.entries@),
                old_entries == self.entries@,
                e0 == old(self)@,
                forall|k: int| 0 <= k < i ==> seq_lt((#[trigger] e0[k]).0, key@),
                i == self.entries.len() || seq_lt(key@, e0[i as int].0),
            decreases self.entries.len() - i,
        {
            let o = str_order(self.entries[i].0.as_str(), key.as_str());
            if o == 0 {
                proof {
                    lemma_lookup_found(e0, i as int);
                }
                let mut entries: Vec<(String, String)> = Vec::new();
                std::mem::swap(&mut entries, &mut self.entries);
                let (k, old_value) = entries.remove(i);
                assert(old_value@ == e0[i as int].1);
                assert(k@ == key@);
                entries.insert(i, (k, value));
                let ghost e1 = entry_views(entries@);
                proof {
                    assert(e1 =~= e0.update(i as int, (key@, e1[i as int].1)));
                    assert forall|a: int, b: int| 0 <= a < b < e1.len() implies seq_lt(
                        #[trigger] e1[a].0,
                        #[trigger] e1[b].0,
                    ) by {
                        assert(e1[a].0 == e0[a].0);
                        assert(e1[b].0 == e0[b].0);
                    }
                    assert forall|k: Seq<char>| true implies lookup(e1, k) == (if k == key@ {
                        Some(e1[i as int].1)
                    } else {
                        lookup(e0, k)
                    }) by {
                        self.lemma_lookup_update(e0, e1, i as int, k);
                    }
                    assert(entries_map(e1) =~= entries_map(e0).insert(key@, e1[i as int].1));
                }
                self.entries = entries;
                return Some(old_value);
            }
            if o == 1 {
                break;
            }
            i = i + 1;
        }
        let ghost pos = i as int;
        proof {
            assert forall|k: int| pos <= k < e0.len() implies seq_lt(key@, (#[trigger] e0[k]).0) by {
                if k > pos {
                    assert(seq_lt(e0[pos].0, e0[k].0));
                    lemma_seq_lt_transitive(key@, e0[pos].0, e0[k].0);
                }
            }
            assert forall|k: int| 0 <= k < e0.len() implies (#[trigger] e0[k]).0 != key@ by {
                if k < pos {
                    lemma_seq_lt_irreflexive(key@);
                } else {
                    lemma_seq_lt_irreflexive(key@);
                }
            }
            lemma_lookup_absent(e0, key@);
        }
        let mut entries: Vec<(String, String)> = Vec::new();
        std::mem::swap(&mut entries, &mut self.entries);
        entries.insert(i, (key, value));
        let ghost e1 = entry_views(entries@);
        proof {
            assert(e1 =~= e0.insert(pos, (e1[pos].0, e1[pos].1)));
            assert forall|a: int, b: int| 0 <= a < b < e1.len() implies seq_lt(
                #[trigger] e1[a].0,
                #[trigger] e1[b].0,
            ) by {
                if b < pos {
                    assert(e1[a] == e0[a] && e1[b] == e0[b]);
                } else if b == pos {
                    assert(e1[a] == e0[a]);
                } else if a < pos {
                    assert(e1[a] == e0[a] && e1[b] == e0[b - 1]);
                    lemma_seq_lt_transitive(e0[a].0, e1[pos].0, e0[b - 1].0);
                } else if a == pos {
                    assert(e1[b] == e0[b - 1]);
                } else {
                    assert(e1[a] == e0[a - 1] && e1[b] == e0[b - 1]);
                }
            }
            assert forall|k: Seq<char>| true implies lookup(e1, k) == (if k == e1[pos].0 {
                Some(e1[pos].1)
            } else {
                lookup(e0, k)
            }) by {
                self.lemma_lookup_insert(e0, e1, pos, k);
            }
            assert(entries_map(e1) =~= entries_map(e0).insert(e1[pos].0, e1[pos].1));
        }
        self.entries = entries;
        None
    }

    proof fn lemma_lookup_update(
        &self,
        e0: Seq<(Seq<char>, Seq<char>)>,
        e1: Seq<(Seq<char>, Seq<char>)>,
        i: int,
        k: Seq<char>,
    )
        requires
            sorted_keys(e0),
            sorted_keys(e1),
            0 <= i < e0.len(),
            e1.len() == e0.len(),
            forall|j: int| 0 <= j < e0.len() && j != i ==> e1[j] == e0[j],
            e1[i].0 == e0[i].0,
        ensures
            lookup(e1, k) == (if k == e1[i].0 {
                Some(e1[i].1)
            } else {
                lookup(e0, k)
            }),
    {
        if k == e1[i].0 {
            lemma_lookup_found(e1, i);
        } else {
            if lookup(e0, k) is Some {
                lemma_lookup_some(e0, k);
                let j = choose|j: int| 0 <= j < e0.len() && (#[trigger] e0[j]).0 == k && e0[j].1 == lookup(e0, k)->0;
                lemma_lookup_found(e1, j);
                lemma_lookup_found(e0, j);
            } else {
                if lookup(e1, k) is Some {
                    lemma_lookup_some(e1, k);
                    let j = choose|j: int| 0 <= j < e1.len() && (#[trigger] e1[j]).0 == k && e1[j].1 == lookup(e1, k)->0;
                    lemma_lookup_found(e0, j);
                }
            }
        }
    }

    proof fn lemma_lookup_insert(
        &self,
        e0: Seq<(Seq<char>, Seq<char>)>,
        e1: Seq<(Seq<char>, Seq<char>)>,
        pos: int,
        k: Seq<char>,
    )
        requires
            sorted_keys(e0),
            sorted_keys(e1),
            0 <= pos <= e0.len(),
            e1.len() == e0.len() + 1,
            forall|j: int| 0 <= j < pos ==> e1[j] == e0[j],
            forall|j: int| pos < j < e1.len() ==> e1[j] == e0[j - 1],
        ensures
            lookup(e1, k) == (if k == e1[pos].0 {
                Some(e1[pos].1)
            } else {
                lookup(e0, k)
            }),
    {
        if k == e1[pos].0 {
            lemma_lookup_found(e1, pos);
        } else {
            if lookup(e0, k) is Some {
                lemma_lookup_some(e0, k);
                let j = choose|j: int| 0 <= j < e0.len() && (#[trigger] e0[j]).0 == k && e0[j].1 == lookup(e0, k)->0;
                if j < pos {
                    lemma_lookup_found(e1, j);
                } else {
                    assert(e1[j + 1] == e0[j]);
                    lemma_lookup_found(e1, j + 1);
                }
            } else {
                if lookup(e1, k) is Some {
                    lemma_lookup_some(e1, k);
                    let j = choose|j: int| 0 <= j < e1.len() && (#[trigger] e1[j]).0 == k && e1[j].1 == lookup(e1, k)->0;
                    if j < pos {
                        lemma_lookup_found(e0, j);
                    } else {
                        assert(j != pos);
                        lemma_lookup_found(e0, j - 1);
                    }
                }
            }
        }
    }
}

impl Default for TextMap {
    fn default() -> (r: Self)
        ensures
            r@ == Seq::<(Seq<char>, Seq<char>)>::empty(),
    {
        TextMap::new()
    }
}

impl Clone for TextMap {
    fn clone(&self) -> (r: Self)
        ensures
            r@ == self@,
    {
        self.duplicate()
    }
}

} // verus!

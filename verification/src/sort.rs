//! Stable ordering of records by a key of a number and two texts.
use crate::text::{lemma_seq_lt_asymmetric, lemma_seq_lt_irreflexive, lemma_seq_lt_total, lemma_seq_lt_transitive, seq_lt, str_order};
use vstd::prelude::*;

verus! {

/// A sort key: a number, then a text, then a second text.
pub struct SortKey {
    pub rank: u64,
    pub first: String,
    pub second: String,
}

/// Value of a sort key.
pub struct KeyV {
    pub rank: nat,
    pub first: Seq<char>,
    pub second: Seq<char>,
}

impl View for SortKey {
    type V = KeyV;

    open spec fn view(&self) -> KeyV {
        KeyV { rank: self.rank as nat, first: self.first@, second: self.second@ }
    }
}

/// The values of keys.
pub open spec fn key_views(keys: Seq<SortKey>) -> Seq<KeyV> {
    Seq::new(keys.len(), |i: int| keys[i]@)
}

/// Strict order of key values: by number, then texts lexicographically.
pub open spec fn key_lt(a: KeyV, b: KeyV) -> bool {
    ||| a.rank < b.rank
    ||| (a.rank == b.rank && seq_lt(a.first, b.first))
    ||| (a.rank == b.rank && a.first == b.first && seq_lt(a.second, b.second))
}

/// Equal key values.
pub open spec fn key_eq(a: KeyV, b: KeyV) -> bool {
    a.rank == b.rank && a.first == b.first && a.second == b.second
}

/// Stable order of positions: by key, ties by position.
pub open spec fn index_lt(keys: Seq<KeyV>, i: int, j: int) -> bool {
    key_lt(keys[i], keys[j]) || (key_eq(keys[i], keys[j]) && i < j)
}

/// `perm` lists each position below `keys.len()` once, in stable key order.
pub open spec fn stably_sorted(keys: Seq<KeyV>, perm: Seq<usize>) -> bool {
    &&& perm.len() == keys.len()
    &&& forall|k: int| 0 <= k < perm.len() ==> (#[trigger] perm[k]) < keys.len()
    &&& forall|a: int, b: int| 0 <= a < b < perm.len() ==> index_lt(keys, #[trigger] perm[a] as int, #[trigger] perm[b] as int)
}

proof fn lemma_key_order(a: KeyV, b: KeyV, c: KeyV)
    ensures
        key_lt(a, b) && key_lt(b, c) ==> key_lt(a, c),
        !(key_lt(a, b) && key_lt(b, a)),
        !key_lt(a, a),
        key_lt(a, b) || key_lt(b, a) || key_eq(a, b),
        key_eq(a, b) && key_lt(b, c) ==> key_lt(a, c),
        key_lt(a, b) && key_eq(b, c) ==> key_lt(a, c),
        key_eq(a, b) ==> !key_lt(a, b),
{
    lemma_seq_lt_asymmetric(a.first, b.first);
    lemma_seq_lt_asymmetric(a.second, b.second);
    lemma_seq_lt_irreflexive(a.first);
    lemma_seq_lt_irreflexive(a.second);
    lemma_seq_lt_total(a.first, b.first);
    lemma_seq_lt_total(a.second, b.second);
    if seq_lt(a.first, b.first) && seq_lt(b.first, c.first) {
        lemma_seq_lt_transitive(a.first, b.first, c.first);
    }
    if seq_lt(a.second, b.second) && seq_lt(b.second, c.second) {
        lemma_seq_lt_transitive(a.second, b.second, c.second);
    }
}

proof fn lemma_index_order(keys: Seq<KeyV>, i: int, j: int, k: int)
    ensures
        index_lt(keys, i, j) && index_lt(keys, j, k) ==> index_lt(keys, i, k),
        !index_lt(keys, i, i),
        !(index_lt(keys, i, j) && index_lt(keys, j, i)),
{
    lemma_key_order(keys[i], keys[j], keys[k]);
    lemma_key_order(keys[j], keys[i], keys[k]);
    lemma_key_order(keys[i], keys[k], keys[j]);
    lemma_key_order(keys[j], keys[k], keys[i]);
    lemma_key_order(keys[k], keys[i], keys[j]);
    lemma_key_order(keys[k], keys[j], keys[i]);
}

/// Three-way comparison of key values.
pub fn key_compare(a: &SortKey, b: &SortKey) -> (r: i8)
    ensures
        r == -1 <==> key_lt(a@, b@),
        r == 1 <==> key_lt(b@, a@),
        r == 0 <==> key_eq(a@, b@),
        r == -1 || r == 0 || r == 1,
{
    proof {
        lemma_key_order(a@, b@, a@);
        lemma_key_order(b@, a@, b@);
    }
    if a.rank < b.rank {
        return -1;
    }
    if b.rank < a.rank {
        return 1;
    }
    let f = str_order(a.first.as_str(), b.first.as_str());
    if f != 0 {
        return f;
    }
    str_order(a.second.as_str(), b.second.as_str())
}

/// The positions of `keys` in stable key order (insertion sort).
pub fn stable_order(keys: &Vec<SortKey>) -> (perm: Vec<usize>)
    ensures
        stably_sorted(key_views(keys@), perm@),
{
    let ghost kv = key_views(keys@);
    let mut perm: Vec<usize> = Vec::new();
    let mut i: usize = 0;
    while i < keys.len()
        invariant
            i <= keys.len(),
            kv == key_views(keys@),
            perm@.len() == i,
            forall|k: int| 0 <= k < perm@.len() ==> (#[trigger] perm@[k]) < i,
            forall|a: int, b: int| 0 <= a < b < perm@.len() ==> index_lt(kv, #[trigger] perm@[a] as int, #[trigger] perm@[b] as int),
        decreases keys.len() - i,
    {
        let mut p: usize = perm.len();
        while p > 0 && key_compare(&keys[perm[p - 1]], &keys[i]) == 1
            invariant
                p <= perm@.len(),
                kv == key_views(keys@),
                perm@.len() == i,
                i < keys.len(),
                forall|k: int| 0 <= k < perm@.len() ==> (#[trigger] perm@[k]) < i,
                forall|k: int| p <= k < perm@.len() ==> key_lt(kv[i as int], #[trigger] kv[perm@[k] as int]),
            decreases p,
        {
            p = p - 1;
        }
        proof {
            if p > 0 {
                let q = perm@[p - 1] as int;
                lemma_key_order(kv[q], kv[i as int], kv[q]);
                assert(index_lt(kv, q, i as int));
                assert forall|k: int| 0 <= k < p implies index_lt(kv, #[trigger] perm@[k] as int, i as int) by {
                    if k < p - 1 {
                        lemma_index_order(kv, perm@[k] as int, q, i as int);
                    }
                }
            }
            assert forall|k: int| p <= k < perm@.len() implies index_lt(kv, i as int, #[trigger] perm@[k] as int) by {
            }
        }
        let ghost old_perm = perm@;
        perm.insert(p, i);
        proof {
            assert forall|a: int, b: int| 0 <= a < b < perm@.len() implies index_lt(
                kv,
                #[trigger] perm@[a] as int,
                #[trigger] perm@[b] as int,
            ) by {
                if b < p {
                    assert(perm@[a] == old_perm[a] && perm@[b] == old_perm[b]);
                } else if b == p {
                    assert(perm@[a] == old_perm[a]);
                } else if a < p {
                    assert(perm@[a] == old_perm[a] && perm@[b] == old_perm[b - 1]);
                } else if a == p {
                    assert(perm@[b] == old_perm[b - 1]);
                } else {
                    assert(perm@[a] == old_perm[a - 1] && perm@[b] == old_perm[b - 1]);
                }
            }
            assert forall|k: int| 0 <= k < perm@.len() implies (#[trigger] perm@[k]) < i + 1 by {
                if k < p {
                    assert(perm@[k] == old_perm[k]);
                } else if k > p {
                    assert(perm@[k] == old_perm[k - 1]);
                }
            }
        }
        i = i + 1;
    }
    perm
}

/// In a stable order, the entries are distinct positions.
pub proof fn lemma_stably_sorted_distinct(keys: Seq<KeyV>, perm: Seq<usize>, a: int, b: int)
    requires
        stably_sorted(keys, perm),
        0 <= a < perm.len(),
        0 <= b < perm.len(),
        a != b,
    ensures
        perm[a] != perm[b],
{
    if a < b {
        assert(index_lt(keys, perm[a] as int, perm[b] as int));
        lemma_index_order(keys, perm[a] as int, perm[a] as int, perm[a] as int);
    } else {
        assert(index_lt(keys, perm[b] as int, perm[a] as int));
        lemma_index_order(keys, perm[b] as int, perm[b] as int, perm[b] as int);
    }
}

/// `perm` lists position `j`.
pub open spec fn lists_position(perm: Seq<usize>, j: int) -> bool {
    exists|i: int| 0 <= i < perm.len() && perm[i] == j
}

/// A stable order lists every position: each position below `keys.len()`
/// occurs in `perm`.
pub proof fn lemma_perm_covers(keys: Seq<KeyV>, perm: Seq<usize>)
    requires
        stably_sorted(keys, perm),
    ensures
        forall|j: int| 0 <= j < keys.len() ==> #[trigger] lists_position(perm, j),
{
    let n = keys.len() as int;
    let t = Seq::new(perm.len(), |i: int| perm[i] as int);
    assert(t.no_duplicates()) by {
        assert forall|i: int, j: int| 0 <= i < t.len() && 0 <= j < t.len() && i != j implies t[i] != t[j] by {
            if i < j {
                lemma_index_order(keys, perm[i] as int, perm[j] as int, perm[j] as int);
            } else {
                lemma_index_order(keys, perm[j] as int, perm[i] as int, perm[i] as int);
            }
        }
    }
    t.unique_seq_to_set();
    vstd::set_lib::lemma_int_range(0, n);
    assert(t.to_set().subset_of(vstd::set_lib::set_int_range(0, n)));
    vstd::set_lib::lemma_subset_equality(t.to_set(), vstd::set_lib::set_int_range(0, n));
    assert forall|j: int| 0 <= j < keys.len() implies #[trigger] lists_position(perm, j) by {
        assert(vstd::set_lib::set_int_range(0, n).contains(j));
        assert(t.to_set().contains(j));
        let i = choose|i: int| 0 <= i < t.len() && t[i] == j;
        assert(perm[i] == j);
        assert(0 <= i < perm.len());
    }
}

/// Consecutive positions in a stable order have non-decreasing keys.
pub proof fn lemma_sorted_adjacent(keys: Seq<KeyV>, perm: Seq<usize>, a: int, b: int)
    requires
        stably_sorted(keys, perm),
        0 <= a < b < perm.len(),
    ensures
        key_lt(keys[perm[a] as int], keys[perm[b] as int]) || key_eq(keys[perm[a] as int], keys[perm[b] as int]),
{
}

/// Positions strictly increase in stable key order.
pub open spec fn positions_increasing(keys: Seq<KeyV>, x: Seq<usize>) -> bool {
    forall|i: int, j: int| 0 <= i < j < x.len() ==> index_lt(keys, #[trigger] x[i] as int, #[trigger] x[j] as int)
}

proof fn lemma_increasing_unique(keys: Seq<KeyV>, x: Seq<usize>, y: Seq<usize>)
    requires
        positions_increasing(keys, x),
        positions_increasing(keys, y),
        forall|z: usize| x.contains(z) <==> y.contains(z),
    ensures
        x == y,
    decreases x.len(),
{
    if x.len() == 0 {
        if y.len() > 0 {
            assert(y.contains(y[0]));
        }
        assert(x =~= y);
    } else {
        assert(x.contains(x[0]));
        let j = choose|j: int| 0 <= j < y.len() && y[j] == x[0];
        assert(y.contains(y[0]));
        let k = choose|k: int| 0 <= k < x.len() && x[k] == y[0];
        if j > 0 {
            assert(index_lt(keys, y[0] as int, y[j] as int));
            lemma_index_order(keys, x[0] as int, x[k] as int, x[0] as int);
            if k > 0 {
                assert(index_lt(keys, x[0] as int, x[k] as int));
            }
            assert(false);
        }
        let xt = x.drop_first();
        let yt = y.drop_first();
        assert forall|z: usize| xt.contains(z) <==> yt.contains(z) by {
            if xt.contains(z) {
                let a = choose|a: int| 0 <= a < xt.len() && xt[a] == z;
                assert(x[a + 1] == z);
                assert(index_lt(keys, x[0] as int, x[a + 1] as int));
                lemma_index_order(keys, z as int, z as int, z as int);
                assert(y.contains(z));
                let b = choose|b: int| 0 <= b < y.len() && y[b] == z;
                assert(b != 0);
                assert(yt[b - 1] == z);
            }
            if yt.contains(z) {
                let a = choose|a: int| 0 <= a < yt.len() && yt[a] == z;
                assert(y[a + 1] == z);
                assert(index_lt(keys, y[0] as int, y[a + 1] as int));
                lemma_index_order(keys, z as int, z as int, z as int);
                assert(x.contains(z));
                let b = choose|b: int| 0 <= b < x.len() && x[b] == z;
                assert(b != 0);
                assert(xt[b - 1] == z);
            }
        }
        assert forall|i: int, j2: int| 0 <= i < j2 < xt.len() implies index_lt(keys, #[trigger] xt[i] as int, #[trigger] xt[j2] as int) by {
            assert(xt[i] == x[i + 1] && xt[j2] == x[j2 + 1]);
        }
        assert forall|i: int, j2: int| 0 <= i < j2 < yt.len() implies index_lt(keys, #[trigger] yt[i] as int, #[trigger] yt[j2] as int) by {
            assert(yt[i] == y[i + 1] && yt[j2] == y[j2 + 1]);
        }
        lemma_increasing_unique(keys, xt, yt);
        assert forall|i: int| 0 <= i < x.len() implies x[i] == y[i] by {
            if i > 0 {
                assert(x[i] == xt[i - 1]);
                assert(y[i] == yt[i - 1]);
            }
        }
        assert(x =~= y);
    }
}

/// There is exactly one stable order of a key sequence.
pub proof fn lemma_stable_order_unique(keys: Seq<KeyV>, p1: Seq<usize>, p2: Seq<usize>)
    requires
        stably_sorted(keys, p1),
        stably_sorted(keys, p2),
    ensures
        p1 == p2,
{
    lemma_perm_covers(keys, p1);
    lemma_perm_covers(keys, p2);
    assert forall|z: usize| p1.contains(z) <==> p2.contains(z) by {
        if p1.contains(z) {
            let i = choose|i: int| 0 <= i < p1.len() && p1[i] == z;
            assert(lists_position(p2, z as int));
        }
        if p2.contains(z) {
            let i = choose|i: int| 0 <= i < p2.len() && p2[i] == z;
            assert(lists_position(p1, z as int));
        }
    }
    lemma_increasing_unique(keys, p1, p2);
}

/// The stable order of a key sequence.
pub open spec fn stable_perm(keys: Seq<KeyV>) -> Seq<usize> {
    choose|p: Seq<usize>| stably_sorted(keys, p)
}

/// A stable order is the stable order.
pub proof fn lemma_stable_perm(keys: Seq<KeyV>, p: Seq<usize>)
    requires
        stably_sorted(keys, p),
    ensures
        stable_perm(keys) == p,
{
    lemma_stable_order_unique(keys, stable_perm(keys), p);
}

/// Keys that order texts by their characters alone.
pub open spec fn text_keys(ids: Seq<Seq<char>>) -> Seq<KeyV> {
    Seq::new(ids.len(), |i: int| KeyV { rank: 0, first: ids[i], second: Seq::empty() })
}

/// Texts in ascending order.
pub open spec fn sorted_texts(ids: Seq<Seq<char>>) -> Seq<Seq<char>> {
    let perm = stable_perm(text_keys(ids));
    Seq::new(perm.len(), |k: int| ids[perm[k] as int])
}

} // verus!

verus! {

proof fn lemma_index_total(keys: Seq<KeyV>, i: int, j: int)
    requires
        i != j,
    ensures
        index_lt(keys, i, j) || index_lt(keys, j, i),
{
    lemma_key_order(keys[i], keys[j], keys[i]);
}

/// `p` lists each position below `n` once, in stable key order.
spec fn sorted_upto(keys: Seq<KeyV>, p: Seq<usize>, n: int) -> bool {
    &&& p.len() == n
    &&& forall|k: int| 0 <= k < p.len() ==> (#[trigger] p[k]) < n
    &&& forall|a: int, b: int| 0 <= a < b < p.len() ==> index_lt(keys, #[trigger] p[a] as int, #[trigger] p[b] as int)
}

/// The first entry of `p` from `i` on that does not order before `x`.
spec fn first_not_before(keys: Seq<KeyV>, p: Seq<usize>, x: int, i: int) -> int
    decreases p.len() - i,
{
    if i >= p.len() || i < 0 {
        p.len() as int
    } else if index_lt(keys, p[i] as int, x) {
        first_not_before(keys, p, x, i + 1)
    } else {
        i
    }
}

proof fn lemma_first_not_before(keys: Seq<KeyV>, p: Seq<usize>, x: int, i: int)
    requires
        0 <= i <= p.len(),
    ensures
        i <= first_not_before(keys, p, x, i) <= p.len(),
        forall|a: int| i <= a < first_not_before(keys, p, x, i) ==> index_lt(keys, #[trigger] p[a] as int, x),
        first_not_before(keys, p, x, i) < p.len() ==> !index_lt(keys, p[first_not_before(keys, p, x, i)] as int, x),
    decreases p.len() - i,
{
    if i < p.len() && index_lt(keys, p[i] as int, x) {
        lemma_first_not_before(keys, p, x, i + 1);
    }
}

proof fn lemma_sorted_upto_exists(keys: Seq<KeyV>, n: int) -> (p: Seq<usize>)
    requires
        0 <= n <= keys.len(),
        keys.len() <= usize::MAX,
    ensures
        sorted_upto(keys, p, n),
    decreases n,
{
    if n == 0 {
        Seq::empty()
    } else {
        let p = lemma_sorted_upto_exists(keys, n - 1);
        let x = n - 1;
        lemma_first_not_before(keys, p, x, 0);
        let c = first_not_before(keys, p, x, 0);
        let q = p.take(c).push(x as usize) + p.skip(c);
        assert(q.len() == n);
        assert forall|k: int| 0 <= k < q.len() implies #[trigger] q[k] == (if k < c {
            p[k]
        } else if k == c {
            x as usize
        } else {
            p[k - 1]
        }) by {}
        assert forall|a: int, b: int| 0 <= a < b < q.len() implies index_lt(keys, #[trigger] q[a] as int, #[trigger] q[b] as int) by {
            if b <= c {
                if b == c {
                    assert(q[a] == p[a]);
                }
            } else if a < c {
                assert(q[b] == p[b - 1]);
                assert(index_lt(keys, p[a] as int, p[b - 1] as int));
            } else if a == c {
                assert(q[b] == p[b - 1]);
                lemma_index_total(keys, x, p[c] as int);
                if b - 1 > c {
                    assert(index_lt(keys, p[c] as int, p[b - 1] as int));
                    lemma_index_order(keys, x, p[c] as int, p[b - 1] as int);
                }
            } else {
                assert(q[a] == p[a - 1] && q[b] == p[b - 1]);
            }
        }
        assert forall|k: int| 0 <= k < q.len() implies (#[trigger] q[k]) < n by {}
        q
    }
}

/// Every key sequence that positions can index has its stable order.
pub proof fn lemma_stable_perm_sorts(keys: Seq<KeyV>)
    requires
        keys.len() <= usize::MAX,
    ensures
        stably_sorted(keys, stable_perm(keys)),
{
    let p = lemma_sorted_upto_exists(keys, keys.len() as int);
    assert(stably_sorted(keys, p));
}

} // verus!

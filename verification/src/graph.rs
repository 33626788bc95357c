//! The dependency and parent graphs of a plan: acyclicity and readiness.
use crate::identity::PlanItemId;
use crate::model::{Plan, PlanItem, PlanItemStatus, PlanStatus};
use crate::sort::{key_views, stable_order, stably_sorted, KeyV, SortKey};
use crate::text::owned;
use vstd::prelude::*;

verus! {

/// Which graph has a cycle.
#[derive(Debug, Clone, Copy, PartialEq, Eq, Structural, Hash)]
pub enum GraphError {
    DependencyCycle,
    ParentCycle,
}

/// Item `i` depends on item `j`.
pub open spec fn dep_edge(items: Seq<PlanItem>, i: int, j: int) -> bool {
    &&& 0 <= i < items.len()
    &&& 0 <= j < items.len()
    &&& exists|k: int| 0 <= k < items[i].dependencies@.len() && (#[trigger] items[i].dependencies@[k])@ == items[j].id@
}

/// Item `j` is the parent of item `i`.
pub open spec fn parent_edge(items: Seq<PlanItem>, i: int, j: int) -> bool {
    &&& 0 <= i < items.len()
    &&& 0 <= j < items.len()
    &&& items[i].parent is Some
    &&& items[i].parent->0@ == items[j].id@
}

/// `rank` strictly decreases along every edge among the first `n` nodes.
pub open spec fn ranked_by(n: int, edge: spec_fn(int, int) -> bool, rank: spec_fn(int) -> nat) -> bool {
    forall|i: int, j: int| 0 <= i < n && 0 <= j < n && #[trigger] edge(i, j) ==> rank(j) < rank(i)
}

/// A graph on `n` nodes is acyclic: its nodes can be ranked so that every
/// edge leads to a lower rank (a topological order exists).
pub open spec fn acyclic(n: int, edge: spec_fn(int, int) -> bool) -> bool {
    exists|rank: spec_fn(int) -> nat| ranked_by(n, edge, rank)
}

/// A closed walk: consecutive nodes are joined by edges and it returns to
/// its start.
pub open spec fn is_cycle(n: int, edge: spec_fn(int, int) -> bool, walk: Seq<int>) -> bool {
    &&& walk.len() >= 2
    &&& walk[0] == walk.last()
    &&& forall|k: int| 0 <= k < walk.len() ==> 0 <= #[trigger] walk[k] < n
    &&& forall|k: int| 0 <= k < walk.len() - 1 ==> edge(#[trigger] walk[k], walk[k + 1])
}

/// The dependency edges of a plan's items.
pub open spec fn dep_edges(items: Seq<PlanItem>) -> spec_fn(int, int) -> bool {
    |i: int, j: int| dep_edge(items, i, j)
}

/// The parent edges of a plan's items.
pub open spec fn parent_edges(items: Seq<PlanItem>) -> spec_fn(int, int) -> bool {
    |i: int, j: int| parent_edge(items, i, j)
}

/// The graph error of a plan's items, dependency cycles first.
pub open spec fn graph_error(items: Seq<PlanItem>) -> Option<GraphError> {
    if !acyclic(items.len() as int, dep_edges(items)) {
        Some(GraphError::DependencyCycle)
    } else if !acyclic(items.len() as int, parent_edges(items)) {
        Some(GraphError::ParentCycle)
    } else {
        None
    }
}

/// Edges of an adjacency list.
pub open spec fn adj_edge(adj: Seq<Vec<usize>>, i: int, j: int) -> bool {
    0 <= i < adj.len() && 0 <= j < adj.len() && adj[i]@.contains(j as usize)
}

/// Every listed successor is a node.
pub open spec fn adj_closed(adj: Seq<Vec<usize>>) -> bool {
    forall|i: int, k: int| 0 <= i < adj.len() && 0 <= k < adj[i]@.len() ==> (#[trigger] adj[i]@[k]) < adj.len()
}

/// A walk with a repeated edge pattern cannot be ranked: a cycle refutes acyclicity.
pub proof fn lemma_cycle_not_acyclic(n: int, edge: spec_fn(int, int) -> bool, walk: Seq<int>)
    requires
        is_cycle(n, edge, walk),
    ensures
        !acyclic(n, edge),
{
    if acyclic(n, edge) {
        let rank = choose|rank: spec_fn(int) -> nat| ranked_by(n, edge, rank);
        assert forall|k: int| 0 <= k < walk.len() implies rank(#[trigger] walk[k]) <= rank(walk[0]) - k by {
            lemma_walk_descends(n, edge, walk, rank, k);
        }
        let last = walk.len() - 1;
        assert(rank(walk[last]) <= rank(walk[0]) - last);
    }
}

proof fn lemma_walk_descends(n: int, edge: spec_fn(int, int) -> bool, walk: Seq<int>, rank: spec_fn(int) -> nat, k: int)
    requires
        is_cycle(n, edge, walk),
        ranked_by(n, edge, rank),
        0 <= k < walk.len(),
    ensures
        rank(walk[k]) <= rank(walk[0]) - k,
    decreases k,
{
    if k > 0 {
        lemma_walk_descends(n, edge, walk, rank, k - 1);
        assert(edge(walk[k - 1], walk[k]));
    }
}

proof fn lemma_min_rank(n: int, inside: spec_fn(int) -> bool, rank: spec_fn(int) -> nat, w: int)
    requires
        0 <= w < n,
        inside(w),
    ensures
        exists|m: int| #![trigger inside(m)] 0 <= m < n && inside(m) && forall|k: int| 0 <= k < n && #[trigger] inside(k) ==> rank(m) <= rank(k),
    decreases rank(w),
{
    if exists|k: int| 0 <= k < n && #[trigger] inside(k) && rank(k) < rank(w) {
        let k = choose|k: int| 0 <= k < n && #[trigger] inside(k) && rank(k) < rank(w);
        lemma_min_rank(n, inside, rank, k);
    } else {
        assert forall|k: int| 0 <= k < n && #[trigger] inside(k) implies rank(w) <= rank(k) by {
        }
    }
}

/// Number of `true` entries.
pub open spec fn count_true(s: Seq<bool>) -> nat
    decreases s.len(),
{
    if s.len() == 0 {
        0
    } else {
        count_true(s.drop_last()) + (if s.last() { 1nat } else { 0nat })
    }
}

proof fn lemma_count_true_bounds(s: Seq<bool>)
    ensures
        count_true(s) <= s.len(),
        count_true(s) == s.len() ==> forall|i: int| 0 <= i < s.len() ==> #[trigger] s[i],
    decreases s.len(),
{
    if s.len() > 0 {
        lemma_count_true_bounds(s.drop_last());
        if count_true(s) == s.len() {
            assert forall|i: int| 0 <= i < s.len() implies #[trigger] s[i] by {
                if i < s.len() - 1 {
                    assert(s.drop_last()[i] == s[i]);
                }
            }
        }
    }
}

proof fn lemma_count_true_set(s: Seq<bool>, i: int)
    requires
        0 <= i < s.len(),
        !s[i],
    ensures
        count_true(s.update(i, true)) == count_true(s) + 1,
    decreases s.len(),
{
    if i < s.len() - 1 {
        lemma_count_true_set(s.drop_last(), i);
        assert(s.update(i, true).drop_last() =~= s.drop_last().update(i, true));
    } else {
        assert(s.update(i, true).drop_last() =~= s.drop_last());
    }
}

/// Whether every listed successor has been removed.
fn all_removed(succ: &Vec<usize>, removed: &Vec<bool>) -> (r: bool)
    requires
        forall|k: int| 0 <= k < succ@.len() ==> (#[trigger] succ@[k]) < removed@.len(),
    ensures
        r == forall|k: int| 0 <= k < succ@.len() ==> removed@[#[trigger] succ@[k] as int],
{
    let mut k: usize = 0;
    while k < succ.len()
        invariant
            k <= succ.len(),
            forall|j: int| 0 <= j < succ@.len() ==> (#[trigger] succ@[j]) < removed@.len(),
            forall|j: int| 0 <= j < k ==> removed@[#[trigger] succ@[j] as int],
        decreases succ.len() - k,
    {
        if !removed[succ[k]] {
            return false;
        }
        k = k + 1;
    }
    true
}

/// Whether an adjacency list is acyclic, by repeatedly removing nodes whose
/// successors have all been removed.
pub fn adjacency_acyclic(adj: &Vec<Vec<usize>>) -> (r: bool)
    requires
        adj_closed(adj@),
    ensures
        r == acyclic(adj@.len() as int, |i: int, j: int| adj_edge(adj@, i, j)),
{
    let n = adj.len();
    let ghost edge = |i: int, j: int| adj_edge(adj@, i, j);
    let mut removed: Vec<bool> = Vec::new();
    let mut i: usize = 0;
    while i < n
        invariant
            i <= n,
            removed@.len() == i,
            forall|k: int| 0 <= k < i ==> !(#[trigger] removed@[k]),
        decreases n - i,
    {
        removed.push(false);
        i = i + 1;
    }
    let ghost mut pos: Seq<nat> = Seq::new(n as nat, |k: int| 0nat);
    let mut count: usize = 0;
    proof {
        assert(removed@ =~= Seq::new(n as nat, |k: int| false));
        assert(count_true(removed@) == 0) by {
            lemma_count_zero(removed@);
        }
    }
    loop
        invariant
            n == adj@.len(),
            adj_closed(adj@),
            removed@.len() == n,
            pos.len() == n,
            count == count_true(removed@),
            count <= n,
            forall|v: int| 0 <= v < n && #[trigger] removed@[v] ==> pos[v] < count,
            forall|v: int, j: int| 0 <= v < n && removed@[v] && #[trigger] adj_edge(adj@, v, j) ==> removed@[j] && pos[j] < pos[v],
        ensures
            removed@.len() == n,
            pos.len() == n,
            count == count_true(removed@),
            forall|v: int| 0 <= v < n && #[trigger] removed@[v] ==> pos[v] < count,
            forall|v: int, j: int| 0 <= v < n && removed@[v] && #[trigger] adj_edge(adj@, v, j) ==> removed@[j] && pos[j] < pos[v],
            forall|w: int| 0 <= w < n ==> #[trigger] removed@[w] || exists|j: int| adj_edge(adj@, w, j) && !removed@[j],
        decreases n - count,
    {
        let mut progress = false;
        let ghost start_count = count;
        let mut v: usize = 0;
        while v < n
            invariant
                n == adj@.len(),
                adj_closed(adj@),
                v <= n,
                removed@.len() == n,
                pos.len() == n,
                count == count_true(removed@),
                count <= n,
                start_count <= count,
                progress == (count > start_count),
                forall|w: int| 0 <= w < n && #[trigger] removed@[w] ==> pos[w] < count,
                forall|w: int, j: int| 0 <= w < n && removed@[w] && #[trigger] adj_edge(adj@, w, j) ==> removed@[j] && pos[j] < pos[w],
                !progress ==> forall|w: int| 0 <= w < v ==> #[trigger] removed@[w] || exists|j: int| adj_edge(adj@, w, j) && !removed@[j],
            decreases n - v,
        {
            if !removed[v] {
                proof {
                    assert forall|k: int| 0 <= k < adj@[v as int]@.len() implies (#[trigger] adj@[v as int]@[k]) < removed@.len() by {
                        assert(adj@[v as int]@[k] < adj@.len());
                    }
                }
                let ok = all_removed(&adj[v], &removed);
                if ok {
                    proof {
                        lemma_count_true_set(removed@, v as int);
                        lemma_count_true_bounds(removed@.update(v as int, true));
                        assert forall|j: int| #[trigger] adj_edge(adj@, v as int, j) implies removed@[j] by {
                            let k = adj@[v as int]@.index_of(j as usize);
                            assert(adj@[v as int]@[k] == j as usize);
                        }
                        pos = pos.update(v as int, count as nat);
                    }
                    removed.set(v, true);
                    count = count + 1;
                    progress = true;
                } else {
                    proof {
                        let k = choose|k: int| 0 <= k < adj@[v as int]@.len() && !removed@[#[trigger] adj@[v as int]@[k] as int];
                        let j = adj@[v as int]@[k] as int;
                        assert(adj_edge(adj@, v as int, j));
                    }
                }
            }
            v = v + 1;
        }
        if !progress {
            break;
        }
    }
    proof {
        lemma_count_true_bounds(removed@);
    }
    if count == n {
        proof {
            let rank = |k: int| pos[k];
            assert(ranked_by(n as int, edge, rank));
        }
        true
    } else {
        proof {
            if acyclic(n as int, edge) {
                let rank = choose|rank: spec_fn(int) -> nat| ranked_by(n as int, edge, rank);
                if forall|w: int| 0 <= w < n ==> removed@[w] {
                    lemma_count_all_true(removed@);
                }
                let w = choose|w: int| 0 <= w < n && !removed@[w];
                let inside = |k: int| !removed@[k];
                lemma_min_rank(n as int, inside, rank, w);
                let m = choose|m: int| #![trigger inside(m)] 0 <= m < n && inside(m) && forall|k: int| 0 <= k < n && #[trigger] inside(k) ==> rank(m) <= rank(k);
                let j = choose|j: int| adj_edge(adj@, m, j) && !removed@[j];
                assert(edge(m, j));
                assert(inside(j));
            }
        }
        false
    }
}

proof fn lemma_count_zero(s: Seq<bool>)
    requires
        forall|i: int| 0 <= i < s.len() ==> !s[i],
    ensures
        count_true(s) == 0,
    decreases s.len(),
{
    if s.len() > 0 {
        lemma_count_zero(s.drop_last());
    }
}

/// Pushing `j` adds exactly `j` to what a sequence contains.
pub proof fn lemma_push_contains(prev: Seq<usize>, j: usize, t: int)
    requires
        0 <= t,
        t <= usize::MAX,
    ensures
        prev.push(j).contains(t as usize) <==> (prev.contains(t as usize) || t == j),
{
    let s = prev.push(j);
    if t == j {
        assert(s[s.len() - 1] == j);
    } else {
        if s.contains(t as usize) {
            let k = choose|k: int| 0 <= k < s.len() && s[k] == t as usize;
            assert(prev[k] == t as usize);
        }
        if prev.contains(t as usize) {
            let k = choose|k: int| 0 <= k < prev.len() && prev[k] == t as usize;
            assert(s[k] == t as usize);
        }
    }
}

/// Pushing `j` adds exactly `j` to what a sequence contains.
pub proof fn lemma_push_contains_any<T>(prev: Seq<T>, j: T, t: T)
    ensures
        prev.push(j).contains(t) <==> (prev.contains(t) || t == j),
{
    let s = prev.push(j);
    if t == j {
        assert(s[s.len() - 1] == j);
    } else {
        if s.contains(t) {
            let k = choose|k: int| 0 <= k < s.len() && s[k] == t;
            assert(prev[k] == t);
        }
        if prev.contains(t) {
            let k = choose|k: int| 0 <= k < prev.len() && prev[k] == t;
            assert(s[k] == t);
        }
    }
}

proof fn lemma_count_all_true(s: Seq<bool>)
    requires
        forall|i: int| 0 <= i < s.len() ==> s[i],
    ensures
        count_true(s) == s.len(),
    decreases s.len(),
{
    if s.len() > 0 {
        lemma_count_all_true(s.drop_last());
    }
}

/// Adjacency of the dependency graph.
fn dependency_adjacency(items: &Vec<PlanItem>) -> (adj: Vec<Vec<usize>>)
    ensures
        adj@.len() == items@.len(),
        adj_closed(adj@),
        forall|i: int, j: int| adj_edge(adj@, i, j) <==> dep_edge(items@, i, j),
{
    let n = items.len();
    let mut adj: Vec<Vec<usize>> = Vec::new();
    let mut i: usize = 0;
    while i < n
        invariant
            n == items@.len(),
            i <= n,
            adj@.len() == i,
            forall|a: int, k: int| 0 <= a < i && 0 <= k < adj@[a]@.len() ==> (#[trigger] adj@[a]@[k]) < n,
            forall|a: int, j: int| 0 <= a < i && 0 <= j < n ==> (adj@[a]@.contains(j as usize) <==> dep_edge(items@, a, j)),
        decreases n - i,
    {
        let item = &items[i];
        let mut succ: Vec<usize> = Vec::new();
        let mut d: usize = 0;
        while d < item.dependencies.len()
            invariant
                n == items@.len(),
                i < n,
                *item == items@[i as int],
                d <= item.dependencies.len(),
                forall|k: int| 0 <= k < succ@.len() ==> (#[trigger] succ@[k]) < n,
                forall|j: int| #![trigger items@[j]] 0 <= j < n ==> (succ@.contains(j as usize) <==> exists|k: int| 0 <= k < d && (#[trigger] item.dependencies@[k])@ == items@[j].id@),
            decreases item.dependencies.len() - d,
        {
            let mut j: usize = 0;
            let ghost before = succ@;
            while j < n
                invariant
                    n == items@.len(),
                    i < n,
                    *item == items@[i as int],
                    d < item.dependencies.len(),
                    j <= n,
                    forall|k: int| 0 <= k < succ@.len() ==> (#[trigger] succ@[k]) < n,
                    forall|t: int| #![trigger items@[t]] 0 <= t < n ==> (succ@.contains(t as usize) <==> (before.contains(t as usize) || (t < j && item.dependencies@[d as int]@ == items@[t].id@))),
                decreases n - j,
            {
                if items[j].id.same(&item.dependencies[d]) {
                    let ghost prev = succ@;
                    succ.push(j);
                    proof {
                        assert forall|t: int| #![trigger items@[t]] 0 <= t < n implies (succ@.contains(t as usize) <==> (before.contains(t as usize) || (t < j + 1 && item.dependencies@[d as int]@ == items@[t].id@))) by {
                            lemma_push_contains(prev, j, t);
                        }
                    }
                }
                j = j + 1;
            }
            proof {
                assert forall|t: int| #![trigger items@[t]] 0 <= t < n implies (succ@.contains(t as usize) <==> exists|k: int| 0 <= k < d + 1 && (#[trigger] item.dependencies@[k])@ == items@[t].id@) by {
                    if item.dependencies@[d as int]@ == items@[t].id@ {
                        assert(item.dependencies@[d as int]@ == items@[t].id@);
                    }
                }
            }
            d = d + 1;
        }
        adj.push(succ);
        proof {
            assert forall|a: int, j: int| 0 <= a < i + 1 && 0 <= j < n implies (adj@[a]@.contains(j as usize) <==> dep_edge(items@, a, j)) by {
                if a == i {
                    assert(adj@[a] == succ);
                }
            }
        }
        i = i + 1;
    }
    adj
}

/// Adjacency of the parent graph.
fn parent_adjacency(items: &Vec<PlanItem>) -> (adj: Vec<Vec<usize>>)
    ensures
        adj@.len() == items@.len(),
        adj_closed(adj@),
        forall|i: int, j: int| adj_edge(adj@, i, j) <==> parent_edge(items@, i, j),
{
    let n = items.len();
    let mut adj: Vec<Vec<usize>> = Vec::new();
    let mut i: usize = 0;
    while i < n
        invariant
            n == items@.len(),
            i <= n,
            adj@.len() == i,
            forall|a: int, k: int| 0 <= a < i && 0 <= k < adj@[a]@.len() ==> (#[trigger] adj@[a]@[k]) < n,
            forall|a: int, j: int| 0 <= a < i && 0 <= j < n ==> (adj@[a]@.contains(j as usize) <==> parent_edge(items@, a, j)),
        decreases n - i,
    {
        let item = &items[i];
        let mut succ: Vec<usize> = Vec::new();
        if let Some(p) = &item.parent {
            let mut j: usize = 0;
            while j < n
                invariant
                    n == items@.len(),
                    i < n,
                    *item == items@[i as int],
                    item.parent == Some(*p),
                    j <= n,
                    forall|k: int| 0 <= k < succ@.len() ==> (#[trigger] succ@[k]) < j,
                    forall|t: int| #![trigger items@[t]] 0 <= t < n ==> (succ@.contains(t as usize) <==> (t < j && p@ == items@[t].id@)),
                decreases n - j,
            {
                if items[j].id.same(p) {
                    let ghost prev = succ@;
                    succ.push(j);
                    proof {
                        assert forall|t: int| #![trigger items@[t]] 0 <= t < n implies (succ@.contains(t as usize) <==> (t < j + 1 && p@ == items@[t].id@)) by {
                            lemma_push_contains(prev, j, t);
                        }
                    }
                }
                j = j + 1;
            }
        }
        adj.push(succ);
        proof {
            assert forall|a: int, j: int| 0 <= a < i + 1 && 0 <= j < n implies (adj@[a]@.contains(j as usize) <==> parent_edge(items@, a, j)) by {
                if a == i {
                    assert(adj@[a] == succ);
                }
            }
        }
        i = i + 1;
    }
    adj
}

/// Rejects a dependency cycle, then a parent cycle.
pub fn validate_graph(items: &Vec<PlanItem>) -> (r: Result<(), GraphError>)
    ensures
        match r {
            Ok(()) => graph_error(items@) is None,
            Err(e) => graph_error(items@) == Some(e),
        },
{
    let deps = dependency_adjacency(items);
    let ok = adjacency_acyclic(&deps);
    proof {
        let a = |i: int, j: int| adj_edge(deps@, i, j);
        assert(a =~= dep_edges(items@));
    }
    if !ok {
        return Err(GraphError::DependencyCycle);
    }
    let parents = parent_adjacency(items);
    let ok = adjacency_acyclic(&parents);
    proof {
        let a = |i: int, j: int| adj_edge(parents@, i, j);
        assert(a =~= parent_edges(items@));
    }
    if !ok {
        return Err(GraphError::ParentCycle);
    }
    Ok(())
}

/// Whether an item can be worked on now.
#[derive(Debug, Clone, PartialEq, Eq)]
pub enum Readiness {
    Ready,
    WaitingOnDependencies(Vec<PlanItemId>),
    NotActionable,
}

/// Readiness of one item.
#[derive(Debug, Clone, PartialEq, Eq)]
pub struct ItemReadiness {
    pub item_id: PlanItemId,
    pub readiness: Readiness,
}

/// The last item carrying an identifier (later items shadow earlier ones).
pub open spec fn lookup_item(items: Seq<PlanItem>, id: Seq<char>) -> Option<PlanItem>
    decreases items.len(),
{
    if items.len() == 0 {
        None
    } else if items.last().id@ == id {
        Some(items.last())
    } else {
        lookup_item(items.drop_last(), id)
    }
}

/// A dependency counts as done when the item it names is Completed.
pub open spec fn dependency_done(items: Seq<PlanItem>, dep: PlanItemId) -> bool {
    lookup_item(items, dep@) matches Some(it) && it.status == PlanItemStatus::Completed
}

/// The dependencies of an item that are not done, in order.
pub open spec fn waiting_on(items: Seq<PlanItem>, deps: Seq<PlanItemId>) -> Seq<PlanItemId> {
    deps.filter(|d: PlanItemId| !dependency_done(items, d))
}

/// Readiness of an item in a plan.
pub open spec fn readiness_matches(plan_status: PlanStatus, items: Seq<PlanItem>, item: PlanItem, r: Readiness) -> bool {
    if plan_status != PlanStatus::Active || !(item.status == PlanItemStatus::Pending || item.status
        == PlanItemStatus::Actionable) {
        r == Readiness::NotActionable
    } else if waiting_on(items, item.dependencies@).len() == 0 {
        r == Readiness::Ready
    } else {
        r matches Readiness::WaitingOnDependencies(w) && w@ == waiting_on(items, item.dependencies@)
    }
}

/// Sort keys of items: position, then identifier.
pub open spec fn item_keys(items: Seq<PlanItem>) -> Seq<KeyV> {
    Seq::new(items.len(), |i: int| KeyV { rank: items[i].position as nat, first: items[i].id@, second: Seq::empty() })
}

/// The position and identifier keys of items.
pub fn item_sort_keys(items: &Vec<PlanItem>) -> (keys: Vec<SortKey>)
    ensures
        key_views(keys@) == item_keys(items@),
{
    let mut keys: Vec<SortKey> = Vec::new();
    let mut i: usize = 0;
    while i < items.len()
        invariant
            i <= items.len(),
            keys@.len() == i,
            forall|k: int| 0 <= k < i ==> (#[trigger] keys@[k])@ == item_keys(items@)[k],
        decreases items.len() - i,
    {
        keys.push(SortKey { rank: items[i].position as u64, first: items[i].id.to_string(), second: String::new() });
        i = i + 1;
    }
    assert(key_views(keys@) =~= item_keys(items@));
    keys
}

/// Items in stable (position, identifier) order.
pub fn items_in_order(items: &Vec<PlanItem>) -> (perm: Vec<usize>)
    ensures
        stably_sorted(item_keys(items@), perm@),
{
    let keys = item_sort_keys(items);
    stable_order(&keys)
}

/// Whether a dependency is done.
fn dependency_is_done(items: &Vec<PlanItem>, dep: &PlanItemId) -> (r: bool)
    ensures
        r == dependency_done(items@, *dep),
{
    let mut k = items.len();
    assert(items@.take(k as int) =~= items@);
    while k > 0
        invariant
            k <= items.len(),
            lookup_item(items@, dep@) == lookup_item(items@.take(k as int), dep@),
        decreases k,
    {
        let ghost t = items@.take(k as int);
        assert(t.drop_last() =~= items@.take(k - 1));
        if items[k - 1].id.same(dep) {
            return items[k - 1].status == PlanItemStatus::Completed;
        }
        k = k - 1;
    }
    false
}

/// The readiness of one item.
pub fn item_readiness(plan_status: PlanStatus, items: &Vec<PlanItem>, item: &PlanItem) -> (r: Readiness)
    ensures
        readiness_matches(plan_status, items@, *item, r),
{
    if plan_status != PlanStatus::Active || !(item.status == PlanItemStatus::Pending || item.status
        == PlanItemStatus::Actionable) {
        return Readiness::NotActionable;
    }
    let mut waiting: Vec<PlanItemId> = Vec::new();
    let mut d: usize = 0;
    while d < item.dependencies.len()
        invariant
            d <= item.dependencies.len(),
            waiting@ == waiting_on(items@, item.dependencies@.take(d as int)),
        decreases item.dependencies.len() - d,
    {
        let dep = &item.dependencies[d];
        let done = dependency_is_done(items, dep);
        proof {
            let t = item.dependencies@.take(d + 1);
            assert(t.drop_last() =~= item.dependencies@.take(d as int));
            reveal(Seq::filter);
        }
        if !done {
            waiting.push(dep.duplicate());
        }
        d = d + 1;
    }
    assert(item.dependencies@.take(d as int) =~= item.dependencies@);
    if waiting.len() == 0 {
        Readiness::Ready
    } else {
        Readiness::WaitingOnDependencies(waiting)
    }
}

/// Readiness of every item, in stable (position, identifier) order.
pub fn readiness(plan: &Plan) -> (r: Vec<ItemReadiness>)
    ensures
        exists|perm: Seq<usize>| #![trigger stably_sorted(item_keys(plan.items@), perm)]
            stably_sorted(item_keys(plan.items@), perm) && r@.len() == perm.len() && forall|k: int|
                0 <= k < r@.len() ==> (#[trigger] r@[k]).item_id == plan.items@[perm[k] as int].id
                && readiness_matches(plan.status, plan.items@, plan.items@[perm[k] as int], r@[k].readiness),
{
    let perm = items_in_order(&plan.items);
    let mut out: Vec<ItemReadiness> = Vec::new();
    let mut k: usize = 0;
    while k < perm.len()
        invariant
            k <= perm.len(),
            stably_sorted(item_keys(plan.items@), perm@),
            out@.len() == k,
            forall|a: int| 0 <= a < k ==> (#[trigger] out@[a]).item_id == plan.items@[perm@[a] as int].id
                && readiness_matches(plan.status, plan.items@, plan.items@[perm@[a] as int], out@[a].readiness),
        decreases perm.len() - k,
    {
        let item = &plan.items[perm[k]];
        let rd = item_readiness(plan.status, &plan.items, item);
        out.push(ItemReadiness { item_id: item.id.duplicate(), readiness: rd });
        k = k + 1;
    }
    out
}

} // verus!

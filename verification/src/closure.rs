//! Append-only evidence supersession, effective observation lineage, and
//! digest-bound closure candidates and records.
use crate::assessment::{
    obs_id_views, obs_keys, obs_views, permuted, sort_observations, AssessmentStatus, PlanAssessment, PlanAssessmentV,
};
use crate::digest::{digest_json, json_digest};
use crate::evidence::{subject_json, subject_to_json, EvidenceObservation, ObservationV};
use crate::graph::{acyclic, adj_closed, adj_edge, adjacency_acyclic, lemma_push_contains};
use crate::identity::{ClosureId, EvidenceObservationId, EvidenceProviderId, EvidenceSupersessionId, PlanId};
use crate::json::{fields_of, push_field, push_value, values_of, JsonText, JsonV};
use crate::model::{all_kinds, all_kinds_seq, kind_name, kind_text, EvidenceKind, KindSet, Plan, PlanStatus, SubjectRevision};
use crate::schema::{assessment_json, assessment_to_json, plan_json, plan_to_json};
use crate::text::{char_count, owned};
use vstd::prelude::*;

verus! {

/// A trusted provider as recorded in a closure's provider policy.
#[derive(Debug, Clone, PartialEq, Eq)]
pub struct ProviderPolicyEntry {
    pub provider_id: EvidenceProviderId,
    pub class: String,
    pub allowed_kinds: KindSet,
}

/// The kinds of a set among the first `n` kinds, in declared order.
pub open spec fn ordered_kinds(s: Set<EvidenceKind>, n: int) -> Seq<EvidenceKind>
    decreases n,
{
    if n <= 0 {
        Seq::empty()
    } else if s.contains(all_kinds_seq()[n - 1]) {
        ordered_kinds(s, n - 1).push(all_kinds_seq()[n - 1])
    } else {
        ordered_kinds(s, n - 1)
    }
}

/// JSON of a policy entry; its kinds in declared order.
pub open spec fn policy_entry_json(e: ProviderPolicyEntry) -> JsonV {
    let ks = ordered_kinds(e.allowed_kinds@, 10);
    JsonV::Obj(
        seq![
            ("provider_id"@, JsonV::Str(e.provider_id@)),
            ("class"@, JsonV::Str(e.class@)),
            ("allowed_kinds"@, JsonV::Arr(Seq::new(ks.len(), |i: int| JsonV::Str(kind_text(ks[i]))))),
        ],
    )
}

/// JSON of a provider policy.
pub open spec fn policy_json(p: Seq<ProviderPolicyEntry>) -> JsonV {
    JsonV::Arr(Seq::new(p.len(), |i: int| policy_entry_json(p[i])))
}

/// JSON of a policy entry.
pub fn policy_entry_to_json(e: &ProviderPolicyEntry) -> (j: JsonText)
    ensures
        j.wf(),
        j.value@ == policy_entry_json(*e),
{
    let all = all_kinds();
    let ghost s = e.allowed_kinds@;
    let mut ks: Vec<JsonText> = Vec::new();
    let mut i: usize = 0;
    while i < 10
        invariant
            i <= 10,
            all@ == all_kinds_seq(),
            s == e.allowed_kinds@,
            values_of(ks@) == Seq::new(ordered_kinds(s, i as int).len(), |k: int| JsonV::Str(kind_text(ordered_kinds(s, i as int)[k]))),
            forall|k: int| 0 <= k < ks@.len() ==> #[trigger] ks@[k].wf(),
        decreases 10 - i,
    {
        if e.allowed_kinds.contains(all[i]) {
            push_value(&mut ks, JsonText::string(kind_name(all[i])));
        }
        proof {
            let o = ordered_kinds(s, i + 1);
            assert(values_of(ks@) =~= Seq::new(o.len(), |k: int| JsonV::Str(kind_text(o[k]))));
        }
        i = i + 1;
    }
    let mut f: Vec<(String, JsonText)> = Vec::new();
    push_field(&mut f, "provider_id", JsonText::string(e.provider_id.as_str()));
    push_field(&mut f, "class", JsonText::string(e.class.as_str()));
    push_field(&mut f, "allowed_kinds", JsonText::array(ks));
    proof {
        assert(fields_of(f@) =~= policy_entry_json(*e)->Obj_0);
    }
    JsonText::object(f)
}

/// JSON of a provider policy.
pub fn policy_to_json(p: &Vec<ProviderPolicyEntry>) -> (j: JsonText)
    ensures
        j.wf(),
        j.value@ == policy_json(p@),
{
    let ghost all = policy_json(p@)->Arr_0;
    let mut out: Vec<JsonText> = Vec::new();
    let mut i: usize = 0;
    while i < p.len()
        invariant
            i <= p.len(),
            all == policy_json(p@)->Arr_0,
            values_of(out@) == all.take(i as int),
            forall|k: int| 0 <= k < out@.len() ==> #[trigger] out@[k].wf(),
        decreases p.len() - i,
    {
        push_value(&mut out, policy_entry_to_json(&p[i]));
        assert(all.take(i + 1) =~= all.take(i as int).push(all[i as int]));
        i = i + 1;
    }
    assert(all.take(p.len() as int) =~= all);
    JsonText::array(out)
}

/// An append-only record that one observation supersedes another.
#[derive(Debug, Clone, PartialEq, Eq)]
pub struct EvidenceSupersessionRecord {
    pub schema_version: u32,
    pub id: EvidenceSupersessionId,
    pub plan_id: PlanId,
    pub superseded: EvidenceObservationId,
    pub replacement: EvidenceObservationId,
    pub reason: String,
    pub recorded_at_unix_ms: u64,
    pub content_digest: String,
}

/// The digested content of a supersession record: its fields as a JSON array.
pub open spec fn supersession_content(r: EvidenceSupersessionRecord) -> JsonV {
    JsonV::Arr(
        seq![
            JsonV::Nat(r.schema_version as nat),
            JsonV::Str(r.id@),
            JsonV::Str(r.plan_id@),
            JsonV::Str(r.superseded@),
            JsonV::Str(r.replacement@),
            JsonV::Str(r.reason@),
            JsonV::Nat(r.recorded_at_unix_ms as nat),
        ],
    )
}

/// A link between two distinct observations with a bounded, non-empty reason.
pub open spec fn link_ok(superseded: Seq<char>, replacement: Seq<char>, reason: Seq<char>) -> bool {
    superseded != replacement && reason.len() > 0 && reason.len() <= 2000
}

/// The first rule a supersession record breaks, as its message.
pub open spec fn record_fault(r: EvidenceSupersessionRecord) -> Option<Seq<char>> {
    if r.schema_version != 1 || !link_ok(r.superseded@, r.replacement@, r.reason@) {
        Some("invalid supersession record"@)
    } else if r.content_digest@ != json_digest(supersession_content(r)) {
        Some("supersession digest mismatch"@)
    } else {
        None
    }
}

impl EvidenceSupersessionRecord {
    /// A sealed record that `superseded` is replaced by `replacement`.
    pub fn new(
        id: EvidenceSupersessionId,
        plan_id: PlanId,
        superseded: EvidenceObservationId,
        replacement: EvidenceObservationId,
        reason: String,
        recorded_at_unix_ms: u64,
    ) -> (r: Result<EvidenceSupersessionRecord, String>)
        ensures
            match r {
                Ok(rec) => {
                    &&& link_ok(superseded@, replacement@, reason@)
                    &&& rec.schema_version == 1
                    &&& rec.id@ == id@
                    &&& rec.plan_id@ == plan_id@
                    &&& rec.superseded@ == superseded@
                    &&& rec.replacement@ == replacement@
                    &&& rec.reason@ == reason@
                    &&& rec.recorded_at_unix_ms == recorded_at_unix_ms
                    &&& rec.content_digest@ == json_digest(supersession_content(rec))
                    &&& crate::digest::is_sha256_text(rec.content_digest@)
                },
                Err(e) => !link_ok(superseded@, replacement@, reason@) && e@ == "invalid supersession link or reason"@,
            },
    {
        let chars = char_count(reason.as_str());
        if superseded.same(&replacement) || chars == 0 || chars > 2000 {
            return Err(owned("invalid supersession link or reason"));
        }
        let mut result = EvidenceSupersessionRecord {
            schema_version: 1,
            id,
            plan_id,
            superseded,
            replacement,
            reason,
            recorded_at_unix_ms,
            content_digest: String::new(),
        };
        result.content_digest = digest_json(&result.content_to_json());
        Ok(result)
    }

    fn content_to_json(&self) -> (j: JsonText)
        ensures
            j.wf(),
            j.value@ == supersession_content(*self),
    {
        let mut a: Vec<JsonText> = Vec::new();
        push_value(&mut a, JsonText::natural(self.schema_version as u64));
        push_value(&mut a, JsonText::string(self.id.as_str()));
        push_value(&mut a, JsonText::string(self.plan_id.as_str()));
        push_value(&mut a, JsonText::string(self.superseded.as_str()));
        push_value(&mut a, JsonText::string(self.replacement.as_str()));
        push_value(&mut a, JsonText::string(self.reason.as_str()));
        push_value(&mut a, JsonText::natural(self.recorded_at_unix_ms));
        proof {
            assert(values_of(a@) =~= supersession_content(*self)->Arr_0);
        }
        JsonText::array(a)
    }

    /// Checks the record (see `record_fault`).
    pub fn validate(&self) -> (r: Result<(), String>)
        ensures
            match r {
                Ok(()) => record_fault(*self) is None,
                Err(e) => record_fault(*self) == Some(e@),
            },
    {
        let chars = char_count(self.reason.as_str());
        if self.schema_version != 1 || self.superseded.same(&self.replacement) || chars == 0 || chars > 2000 {
            return Err(owned("invalid supersession record"));
        }
        let expected = digest_json(&self.content_to_json());
        if expected != self.content_digest {
            return Err(owned("supersession digest mismatch"));
        }
        Ok(())
    }
}

/// Some observation carries the identifier.
pub open spec fn has_obs(obs: Seq<ObservationV>, id: Seq<char>) -> bool {
    exists|i: int| 0 <= i < obs.len() && (#[trigger] obs[i]).id == id
}

/// The first link among the first `n` that breaks a rule, as its message.
pub open spec fn links_fault(obs: Seq<ObservationV>, links: Seq<EvidenceSupersessionRecord>, n: int) -> Option<Seq<char>>
    decreases n,
{
    if n <= 0 {
        None
    } else if links_fault(obs, links, n - 1) is Some {
        links_fault(obs, links, n - 1)
    } else {
        let l = links[n - 1];
        if record_fault(l) is Some {
            record_fault(l)
        } else if exists|j: int| 0 <= j < n - 1 && (#[trigger] links[j]).id@ == l.id@ {
            Some("duplicate supersession ID"@)
        } else if !has_obs(obs, l.superseded@) || !has_obs(obs, l.replacement@) {
            Some("dangling supersession link"@)
        } else if exists|j: int| 0 <= j < n - 1 && (#[trigger] links[j]).superseded@ == l.superseded@ {
            Some("conflicting supersession successors"@)
        } else {
            None
        }
    }
}

/// Observation `i` is superseded by observation `j`.
pub open spec fn supersedes_edge(obs: Seq<ObservationV>, links: Seq<EvidenceSupersessionRecord>, i: int, j: int) -> bool {
    &&& 0 <= i < obs.len()
    &&& 0 <= j < obs.len()
    &&& exists|k: int| 0 <= k < links.len() && (#[trigger] links[k]).superseded@ == obs[i].id && links[k].replacement@ == obs[j].id
}

/// Some link supersedes the identifier.
pub open spec fn is_superseded(links: Seq<EvidenceSupersessionRecord>, id: Seq<char>) -> bool {
    exists|k: int| 0 <= k < links.len() && (#[trigger] links[k]).superseded@ == id
}

/// The observations among the first `n` that no link supersedes, in order.
pub open spec fn kept(obs: Seq<ObservationV>, links: Seq<EvidenceSupersessionRecord>, n: int) -> Seq<ObservationV>
    decreases n,
{
    if n <= 0 {
        Seq::empty()
    } else if is_superseded(links, obs[n - 1].id) {
        kept(obs, links, n - 1)
    } else {
        kept(obs, links, n - 1).push(obs[n - 1])
    }
}

/// Observation identifiers are pairwise distinct.
pub open spec fn obs_ids_distinct(obs: Seq<ObservationV>) -> bool {
    forall|i: int, j: int| 0 <= i < obs.len() && 0 <= j < obs.len() && i != j ==> (#[trigger] obs[i]).id != (#[trigger] obs[j]).id
}

/// The first reason the lineage is refused, as its message.
pub open spec fn lineage_fault(obs: Seq<ObservationV>, links: Seq<EvidenceSupersessionRecord>) -> Option<Seq<char>> {
    if !obs_ids_distinct(obs) {
        Some("duplicate observation ID"@)
    } else if links_fault(obs, links, links.len() as int) is Some {
        links_fault(obs, links, links.len() as int)
    } else if !acyclic(obs.len() as int, |i: int, j: int| supersedes_edge(obs, links, i, j)) {
        Some("supersession cycle"@)
    } else {
        None
    }
}

proof fn lemma_links_fault_stable(obs: Seq<ObservationV>, links: Seq<EvidenceSupersessionRecord>, n: int, m: int)
    requires
        0 <= n <= m,
    ensures
        links_fault(obs, links, n) is Some ==> links_fault(obs, links, m) == links_fault(obs, links, n),
    decreases m - n,
{
    if m > n {
        lemma_links_fault_stable(obs, links, n, m - 1);
    }
}

/// Index of the observation carrying an identifier.
fn find_observation(obs: &[EvidenceObservation], id: &EvidenceObservationId) -> (r: Option<usize>)
    ensures
        match r {
            Some(i) => i < obs@.len() && obs@[i as int]@.id == id@,
            None => !has_obs(obs_views(obs@), id@),
        },
{
    let mut i: usize = 0;
    while i < obs.len()
        invariant
            i <= obs.len(),
            forall|k: int| 0 <= k < i ==> (#[trigger] obs@[k])@.id != id@,
        decreases obs.len() - i,
    {
        if obs[i].id().same(id) {
            return Some(i);
        }
        i = i + 1;
    }
    proof {
        if has_obs(obs_views(obs@), id@) {
            let k = choose|k: int| 0 <= k < obs_views(obs@).len() && (#[trigger] obs_views(obs@)[k]).id == id@;
            assert(obs@[k]@.id == id@);
        }
    }
    None
}

/// The observations that remain effective after supersession, in
/// identifier order. Refuses repeated observation identifiers, invalid,
/// repeated, dangling or conflicting links, and supersession cycles.
#[verifier::loop_isolation(false)]
pub fn effective_observations(
    observations: &[EvidenceObservation],
    links: &[EvidenceSupersessionRecord],
) -> (r: Result<Vec<EvidenceObservation>, String>)
    ensures
        match r {
            Ok(out) => lineage_fault(obs_views(observations@), links@) is None && exists|perm: Seq<usize>|
                #[trigger] stably_sorted_kept(obs_views(observations@), links@, perm) && obs_views(out@) == permuted(
                    kept(obs_views(observations@), links@, observations@.len() as int),
                    perm,
                ),
            Err(e) => lineage_fault(obs_views(observations@), links@) == Some(e@),
        },
{
    let ghost ov = obs_views(observations@);
    let n = observations.len();
    let mut i: usize = 0;
    while i < n
        invariant
            i <= n,
            n == observations@.len(),
            ov == obs_views(observations@),
            forall|a: int, b: int| 0 <= a < i && 0 <= b < n && a != b ==> (#[trigger] ov[a]).id != (#[trigger] ov[b]).id,
        decreases n - i,
    {
        let mut j: usize = 0;
        while j < n
            invariant
                j <= n,
                i < n,
                n == observations@.len(),
                ov == obs_views(observations@),
                forall|a: int, b: int| 0 <= a < i && 0 <= b < n && a != b ==> (#[trigger] ov[a]).id != (#[trigger] ov[b]).id,
                forall|b: int| 0 <= b < j && b != i ==> ov[i as int].id != (#[trigger] ov[b]).id,
            decreases n - j,
        {
            if j != i && observations[i].id().same(observations[j].id()) {
                proof {
                    assert(ov[i as int].id == ov[j as int].id);
                }
                return Err(owned("duplicate observation ID"));
            }
            j = j + 1;
        }
        i = i + 1;
    }
    let mut adj: Vec<Vec<usize>> = Vec::new();
    let mut i: usize = 0;
    while i < n
        invariant
            i <= n,
            adj@.len() == i,
            forall|a: int| 0 <= a < i ==> (#[trigger] adj@[a])@.len() == 0,
        decreases n - i,
    {
        adj.push(Vec::new());
        i = i + 1;
    }
    let mut k: usize = 0;
    while k < links.len()
        invariant
            k <= links.len(),
            n == observations@.len(),
            ov == obs_views(observations@),
            obs_ids_distinct(ov),
            adj@.len() == n,
            adj_closed(adj@),
            links_fault(ov, links@, k as int) is None,
            forall|a: int, b: int| adj_edge(adj@, a, b) <==> (0 <= a < n && 0 <= b < n && exists|t: int|
                0 <= t < k && (#[trigger] links@[t]).superseded@ == ov[a].id && links@[t].replacement@ == ov[b].id),
        decreases links.len() - k,
    {
        let link = &links[k];
        proof {
            lemma_links_fault_stable(ov, links@, k + 1, links@.len() as int);
        }
        link.validate()?;
        let mut j: usize = 0;
        while j < k
            invariant
                j <= k < links.len(),
                forall|t: int| 0 <= t < j ==> (#[trigger] links@[t]).id@ != links@[k as int].id@,
            decreases k - j,
        {
            if links[j].id.same(&link.id) {
                return Err(owned("duplicate supersession ID"));
            }
            j = j + 1;
        }
        let s = find_observation(observations, &link.superseded);
        let t = find_observation(observations, &link.replacement);
        if s.is_none() || t.is_none() {
            return Err(owned("dangling supersession link"));
        }
        let s = s.unwrap();
        let t = t.unwrap();
        let mut j: usize = 0;
        while j < k
            invariant
                j <= k < links.len(),
                forall|q: int| 0 <= q < j ==> (#[trigger] links@[q]).superseded@ != links@[k as int].superseded@,
            decreases k - j,
        {
            if links[j].superseded.same(&link.superseded) {
                return Err(owned("conflicting supersession successors"));
            }
            j = j + 1;
        }
        let ghost before = adj@;
        let mut succ = adj[s].clone();
        assert(succ@ =~= before[s as int]@);
        succ.push(t);
        adj.set(s, succ);
        proof {
            assert forall|a: int, b: int| adj_edge(adj@, a, b) <==> (0 <= a < n && 0 <= b < n && exists|q: int|
                0 <= q < k + 1 && (#[trigger] links@[q]).superseded@ == ov[a].id && links@[q].replacement@ == ov[b].id) by {
                assert(adj_edge(before, a, b) <==> (0 <= a < n && 0 <= b < n && exists|q: int|
                    0 <= q < k && (#[trigger] links@[q]).superseded@ == ov[a].id && links@[q].replacement@ == ov[b].id));
                if 0 <= a < n && 0 <= b < n {
                    assert(ov[s as int].id == links@[k as int].superseded@);
                    assert(ov[t as int].id == links@[k as int].replacement@);
                    let new_k = links@[k as int].superseded@ == ov[a].id && links@[k as int].replacement@ == ov[b].id;
                    if new_k {
                        assert(a == s as int);
                        assert(b == t as int);
                    }
                    if a == s as int {
                        lemma_push_contains(before[a]@, t, b);
                        assert(adj@[a]@ == before[a]@.push(t));
                    } else {
                        assert(adj@[a] == before[a]);
                    }
                    if exists|q: int| 0 <= q < k + 1 && (#[trigger] links@[q]).superseded@ == ov[a].id && links@[q].replacement@ == ov[b].id {
                        let q = choose|q: int| 0 <= q < k + 1 && (#[trigger] links@[q]).superseded@ == ov[a].id && links@[q].replacement@ == ov[b].id;
                        if q < k {
                            assert(exists|q: int| 0 <= q < k && (#[trigger] links@[q]).superseded@ == ov[a].id && links@[q].replacement@ == ov[b].id);
                        }
                    }
                    if a == s as int && b == t as int {
                        assert(links@[k as int].superseded@ == ov[a].id && links@[k as int].replacement@ == ov[b].id);
                    }
                }
            }
            assert forall|a: int, c: int| 0 <= a < adj@.len() && 0 <= c < adj@[a]@.len() implies (#[trigger] adj@[a]@[c]) < adj@.len() by {
                if a == s as int {
                    if c < before[a]@.len() {
                        assert(adj@[a]@[c] == before[a]@[c]);
                    }
                } else {
                    assert(adj@[a] == before[a]);
                }
            }
        }
        k = k + 1;
    }
    let ghost edge = |a: int, b: int| supersedes_edge(ov, links@, a, b);
    assert(links_fault(ov, links@, links@.len() as int) is None);
    if !adjacency_acyclic(&adj) {
        proof {
            assert((|a: int, b: int| adj_edge(adj@, a, b)) =~= edge);
        }
        return Err(owned("supersession cycle"));
    }
    proof {
        assert((|a: int, b: int| adj_edge(adj@, a, b)) =~= edge);
    }
    let mut remaining: Vec<EvidenceObservation> = Vec::new();
    let mut i: usize = 0;
    while i < n
        invariant
            i <= n,
            n == observations@.len(),
            ov == obs_views(observations@),
            obs_views(remaining@) == kept(ov, links@, i as int),
        decreases n - i,
    {
        let mut superseded = false;
        let mut q: usize = 0;
        while q < links.len()
            invariant
                q <= links.len(),
                i < n,
                superseded == exists|t: int| 0 <= t < q && (#[trigger] links@[t]).superseded@ == ov[i as int].id,
            decreases links.len() - q,
        {
            if links[q].superseded.same(observations[i].id()) {
                superseded = true;
            }
            q = q + 1;
        }
        if !superseded {
            let ghost before = remaining@;
            remaining.push(observations[i].duplicate());
            assert(obs_views(remaining@) =~= obs_views(before).push(ov[i as int]));
        }
        i = i + 1;
    }
    let slice = remaining.as_slice();
    let (sorted, Ghost(perm)) = sort_observations(slice);
    proof {
        assert(slice@ == remaining@);
        assert(stably_sorted_kept(ov, links@, perm));
    }
    Ok(sorted)
}

/// `perm` is the stable identifier order of the effective observations.
pub open spec fn stably_sorted_kept(obs: Seq<ObservationV>, links: Seq<EvidenceSupersessionRecord>, perm: Seq<usize>) -> bool {
    crate::sort::stably_sorted(obs_keys(kept(obs, links, obs.len() as int)), perm)
}

/// A cycle of supersession links among the observations is refused.
pub proof fn lemma_supersession_cycle_refused(
    obs: Seq<ObservationV>,
    links: Seq<EvidenceSupersessionRecord>,
    walk: Seq<int>,
)
    requires
        crate::graph::is_cycle(obs.len() as int, |i: int, j: int| supersedes_edge(obs, links, i, j), walk),
    ensures
        lineage_fault(obs, links) is Some,
{
    crate::graph::lemma_cycle_not_acyclic(obs.len() as int, |i: int, j: int| supersedes_edge(obs, links, i, j), walk);
}

/// The effective observations are exactly the observations that no link
/// supersedes.
pub proof fn lemma_kept_exactly_unsuperseded(
    obs: Seq<ObservationV>,
    links: Seq<EvidenceSupersessionRecord>,
    n: int,
    x: ObservationV,
)
    requires
        0 <= n <= obs.len(),
    ensures
        kept(obs, links, n).contains(x) <==> (!is_superseded(links, x.id) && exists|i: int| 0 <= i < n && obs[i] == x),
    decreases n,
{
    if n > 0 {
        lemma_kept_exactly_unsuperseded(obs, links, n - 1, x);
        let p = kept(obs, links, n - 1);
        if !is_superseded(links, obs[n - 1].id) {
            crate::graph::lemma_push_contains_any(p, obs[n - 1], x);
        }
        if exists|i: int| 0 <= i < n && obs[i] == x {
            let i = choose|i: int| 0 <= i < n && obs[i] == x;
            if i < n - 1 {
                assert(exists|i: int| 0 <= i < n - 1 && obs[i] == x);
            }
        }
    }
}

/// A closure proposal: a Complete assessment bound to the exact plan
/// revision, subject, satisfying observations, supersessions and provider
/// policy.
#[derive(Debug, Clone, PartialEq, Eq)]
pub struct ClosureCandidate {
    pub plan_id: PlanId,
    pub source_revision: u64,
    pub source_plan_digest: String,
    pub subject: SubjectRevision,
    pub assessment: PlanAssessment,
    pub satisfying_observations: Vec<(EvidenceObservationId, String)>,
    pub supersession_digests: Vec<(EvidenceSupersessionId, String)>,
    pub provider_policy: Vec<ProviderPolicyEntry>,
    pub provider_policy_digest: String,
    pub created_at_unix_ms: u64,
}

/// JSON arrays of identifier and digest pairs.
pub open spec fn pairs_json(p: Seq<(Seq<char>, Seq<char>)>) -> JsonV {
    JsonV::Arr(Seq::new(p.len(), |i: int| JsonV::Arr(seq![JsonV::Str(p[i].0), JsonV::Str(p[i].1)])))
}

/// The values of observation identifier and digest pairs.
pub open spec fn obs_pairs(p: Seq<(EvidenceObservationId, String)>) -> Seq<(Seq<char>, Seq<char>)> {
    Seq::new(p.len(), |i: int| (p[i].0@, p[i].1@))
}

/// The values of supersession identifier and digest pairs.
pub open spec fn link_pairs(p: Seq<(EvidenceSupersessionId, String)>) -> Seq<(Seq<char>, Seq<char>)> {
    Seq::new(p.len(), |i: int| (p[i].0@, p[i].1@))
}

/// JSON of a closure candidate.
pub open spec fn candidate_json(c: ClosureCandidate) -> JsonV {
    JsonV::Obj(
        seq![
            ("plan_id"@, JsonV::Str(c.plan_id@)),
            ("source_revision"@, JsonV::Nat(c.source_revision as nat)),
            ("source_plan_digest"@, JsonV::Str(c.source_plan_digest@)),
            ("subject"@, subject_json(c.subject@)),
            ("assessment"@, assessment_json(c.assessment@)),
            ("satisfying_observations"@, pairs_json(obs_pairs(c.satisfying_observations@))),
            ("supersession_digests"@, pairs_json(link_pairs(c.supersession_digests@))),
            ("provider_policy"@, policy_json(c.provider_policy@)),
            ("provider_policy_digest"@, JsonV::Str(c.provider_policy_digest@)),
            ("created_at_unix_ms"@, JsonV::Nat(c.created_at_unix_ms as nat)),
        ],
    )
}

fn pairs_to_json(p: &Vec<(String, String)>) -> (j: JsonText)
    ensures
        j.wf(),
        j.value@ == pairs_json(Seq::new(p@.len(), |i: int| (p@[i].0@, p@[i].1@))),
{
    let ghost all = pairs_json(Seq::new(p@.len(), |i: int| (p@[i].0@, p@[i].1@)))->Arr_0;
    let mut out: Vec<JsonText> = Vec::new();
    let mut i: usize = 0;
    while i < p.len()
        invariant
            i <= p.len(),
            all == pairs_json(Seq::new(p@.len(), |i: int| (p@[i].0@, p@[i].1@)))->Arr_0,
            values_of(out@) == all.take(i as int),
            forall|k: int| 0 <= k < out@.len() ==> #[trigger] out@[k].wf(),
        decreases p.len() - i,
    {
        let mut pair: Vec<JsonText> = Vec::new();
        push_value(&mut pair, JsonText::string(p[i].0.as_str()));
        push_value(&mut pair, JsonText::string(p[i].1.as_str()));
        assert(values_of(pair@) =~= all[i as int]->Arr_0);
        push_value(&mut out, JsonText::array(pair));
        assert(all.take(i + 1) =~= all.take(i as int).push(all[i as int]));
        i = i + 1;
    }
    assert(all.take(p.len() as int) =~= all);
    JsonText::array(out)
}

/// JSON of a closure candidate.
pub fn candidate_to_json(c: &ClosureCandidate) -> (j: JsonText)
    ensures
        j.wf(),
        j.value@ == candidate_json(*c),
{
    let mut sat: Vec<(String, String)> = Vec::new();
    let mut i: usize = 0;
    while i < c.satisfying_observations.len()
        invariant
            i <= c.satisfying_observations.len(),
            sat@.len() == i,
            forall|k: int| 0 <= k < i ==> (#[trigger] sat@[k]).0@ == c.satisfying_observations@[k].0@ && sat@[k].1@
                == c.satisfying_observations@[k].1@,
        decreases c.satisfying_observations.len() - i,
    {
        sat.push((c.satisfying_observations[i].0.to_string(), c.satisfying_observations[i].1.clone()));
        i = i + 1;
    }
    assert(Seq::new(sat@.len(), |i: int| (sat@[i].0@, sat@[i].1@)) =~= obs_pairs(c.satisfying_observations@));
    let mut sup: Vec<(String, String)> = Vec::new();
    let mut i: usize = 0;
    while i < c.supersession_digests.len()
        invariant
            i <= c.supersession_digests.len(),
            sup@.len() == i,
            forall|k: int| 0 <= k < i ==> (#[trigger] sup@[k]).0@ == c.supersession_digests@[k].0@ && sup@[k].1@
                == c.supersession_digests@[k].1@,
        decreases c.supersession_digests.len() - i,
    {
        sup.push((c.supersession_digests[i].0.to_string(), c.supersession_digests[i].1.clone()));
        i = i + 1;
    }
    assert(Seq::new(sup@.len(), |i: int| (sup@[i].0@, sup@[i].1@)) =~= link_pairs(c.supersession_digests@));
    let mut f: Vec<(String, JsonText)> = Vec::new();
    push_field(&mut f, "plan_id", JsonText::string(c.plan_id.as_str()));
    push_field(&mut f, "source_revision", JsonText::natural(c.source_revision));
    push_field(&mut f, "source_plan_digest", JsonText::string(c.source_plan_digest.as_str()));
    push_field(&mut f, "subject", subject_to_json(&c.subject));
    push_field(&mut f, "assessment", assessment_to_json(&c.assessment));
    push_field(&mut f, "satisfying_observations", pairs_to_json(&sat));
    push_field(&mut f, "supersession_digests", pairs_to_json(&sup));
    push_field(&mut f, "provider_policy", policy_to_json(&c.provider_policy));
    push_field(&mut f, "provider_policy_digest", JsonText::string(c.provider_policy_digest.as_str()));
    push_field(&mut f, "created_at_unix_ms", JsonText::natural(c.created_at_unix_ms));
    proof {
        assert(fields_of(f@) =~= candidate_json(*c)->Obj_0);
    }
    JsonText::object(f)
}

/// Satisfying identifiers of requirement assessments, in order.
pub open spec fn req_ids(rs: Seq<crate::assessment::RequirementV>) -> Seq<Seq<char>>
    decreases rs.len(),
{
    if rs.len() == 0 {
        Seq::empty()
    } else {
        req_ids(rs.drop_last()) + rs.last().satisfying
    }
}

/// Satisfying identifiers of criterion assessments, in order.
pub open spec fn crit_ids(cs: Seq<crate::assessment::CriterionV>) -> Seq<Seq<char>>
    decreases cs.len(),
{
    if cs.len() == 0 {
        Seq::empty()
    } else {
        crit_ids(cs.drop_last()) + req_ids(cs.last().requirements)
    }
}

/// Satisfying identifiers of item assessments, in order.
pub open spec fn items_ids(is: Seq<crate::assessment::ItemV>) -> Seq<Seq<char>>
    decreases is.len(),
{
    if is.len() == 0 {
        Seq::empty()
    } else {
        items_ids(is.drop_last()) + crit_ids(is.last().criteria)
    }
}

/// Every satisfying identifier an assessment names, with repeats.
pub open spec fn all_satisfying(a: PlanAssessmentV) -> Seq<Seq<char>> {
    items_ids(a.items)
}

/// Identifiers strictly increase.
pub open spec fn ids_strictly_sorted(ids: Seq<Seq<char>>) -> bool {
    forall|i: int, j: int| 0 <= i < j < ids.len() ==> crate::text::seq_lt(#[trigger] ids[i], #[trigger] ids[j])
}

/// The observation chosen for an identifier: the first that carries it.
pub open spec fn first_with(obs: Seq<ObservationV>, id: Seq<char>, k: int) -> bool {
    &&& 0 <= k < obs.len()
    &&& obs[k].id == id
    &&& forall|j: int| 0 <= j < k ==> (#[trigger] obs[j]).id != id
}

fn extend_ids(out: &mut Vec<EvidenceObservationId>, ids: &Vec<EvidenceObservationId>)
    ensures
        obs_id_views(final(out)@) == obs_id_views(old(out)@) + obs_id_views(ids@),
{
    let ghost start = obs_id_views(out@);
    let mut k: usize = 0;
    while k < ids.len()
        invariant
            k <= ids.len(),
            obs_id_views(out@) == start + obs_id_views(ids@).take(k as int),
        decreases ids.len() - k,
    {
        let ghost before = out@;
        out.push(ids[k].duplicate());
        assert(obs_id_views(out@) =~= obs_id_views(before).push(ids@[k as int]@));
        assert(obs_id_views(ids@).take(k + 1) =~= obs_id_views(ids@).take(k as int).push(ids@[k as int]@));
        k = k + 1;
    }
    assert(obs_id_views(ids@).take(ids.len() as int) =~= obs_id_views(ids@));
}

/// All satisfying identifiers of an assessment, with repeats, in order.
pub(crate) fn collect_satisfying(a: &PlanAssessment) -> (r: Vec<EvidenceObservationId>)
    ensures
        obs_id_views(r@) == all_satisfying(a@),
{
    let mut out: Vec<EvidenceObservationId> = Vec::new();
    let ghost iv = a@.items;
    let mut i: usize = 0;
    assert(obs_id_views(out@) =~= Seq::<Seq<char>>::empty());
    while i < a.items.len()
        invariant
            i <= a.items.len(),
            iv == a@.items,
            obs_id_views(out@) == items_ids(iv.take(i as int)),
        decreases a.items.len() - i,
    {
        let it = &a.items[i];
        let ghost cv = it@.criteria;
        let ghost start = obs_id_views(out@);
        let mut c: usize = 0;
        assert(cv.take(0) =~= Seq::<crate::assessment::CriterionV>::empty());
        while c < it.criteria.len()
            invariant
                c <= it.criteria.len(),
                cv == it@.criteria,
                obs_id_views(out@) == start + crit_ids(cv.take(c as int)),
            decreases it.criteria.len() - c,
        {
            let cr = &it.criteria[c];
            let ghost rv = cr@.requirements;
            let ghost start2 = obs_id_views(out@);
            let mut r: usize = 0;
            assert(rv.take(0) =~= Seq::<crate::assessment::RequirementV>::empty());
            while r < cr.requirements.len()
                invariant
                    r <= cr.requirements.len(),
                    rv == cr@.requirements,
                    obs_id_views(out@) == start2 + req_ids(rv.take(r as int)),
                decreases cr.requirements.len() - r,
            {
                extend_ids(&mut out, &cr.requirements[r].satisfying_observation_ids);
                assert(rv.take(r + 1).drop_last() =~= rv.take(r as int));
                assert(rv[r as int] == cr.requirements@[r as int]@);
                r = r + 1;
            }
            assert(rv.take(cr.requirements.len() as int) =~= rv);
            assert(cv.take(c + 1).drop_last() =~= cv.take(c as int));
            assert(cv[c as int] == cr@);
            c = c + 1;
        }
        assert(cv.take(it.criteria.len() as int) =~= cv);
        assert(iv.take(i + 1).drop_last() =~= iv.take(i as int));
        assert(iv[i as int] == it@);
        i = i + 1;
    }
    assert(iv.take(a.items.len() as int) =~= iv);
    out
}

/// Sort keys of identifiers.
pub open spec fn id_keys(ids: Seq<Seq<char>>) -> Seq<crate::sort::KeyV> {
    Seq::new(ids.len(), |i: int| crate::sort::KeyV { rank: 0, first: ids[i], second: Seq::empty() })
}

/// The distinct identifiers, in increasing order.
fn sorted_unique_ids(all: &Vec<EvidenceObservationId>) -> (r: Vec<EvidenceObservationId>)
    ensures
        ids_strictly_sorted(obs_id_views(r@)),
        forall|x: Seq<char>| obs_id_views(r@).contains(x) <==> obs_id_views(all@).contains(x),
{
    let ghost v = obs_id_views(all@);
    let mut keys: Vec<crate::sort::SortKey> = Vec::new();
    let mut i: usize = 0;
    while i < all.len()
        invariant
            i <= all.len(),
            v == obs_id_views(all@),
            keys@.len() == i,
            forall|k: int| 0 <= k < i ==> (#[trigger] keys@[k])@ == id_keys(v)[k],
        decreases all.len() - i,
    {
        keys.push(crate::sort::SortKey { rank: 0, first: all[i].to_string(), second: String::new() });
        i = i + 1;
    }
    assert(crate::sort::key_views(keys@) =~= id_keys(v));
    let perm = crate::sort::stable_order(&keys);
    let ghost kv = id_keys(v);
    let mut out: Vec<EvidenceObservationId> = Vec::new();
    let mut i: usize = 0;
    assert(obs_id_views(out@) =~= Seq::<Seq<char>>::empty());
    while i < perm.len()
        invariant
            i <= perm.len(),
            v == obs_id_views(all@),
            kv == id_keys(v),
            crate::sort::stably_sorted(kv, perm@),
            ids_strictly_sorted(obs_id_views(out@)),
            forall|x: Seq<char>| obs_id_views(out@).contains(x) <==> exists|t: int| 0 <= t < i && #[trigger] v[perm@[t] as int] == x,
            i > 0 ==> out@.len() > 0 && obs_id_views(out@).last() == v[perm@[i - 1] as int],
        decreases perm.len() - i,
    {
        let ghost e = v[perm@[i as int] as int];
        let ghost before = obs_id_views(out@);
        let keep = if i == 0 {
            true
        } else {
            !all[perm[i]].same(&out[out.len() - 1])
        };
        if keep {
            out.push(all[perm[i]].duplicate());
            proof {
                assert(obs_id_views(out@) =~= before.push(e));
                if i == 0 {
                    if before.len() > 0 {
                        assert(before.contains(before[0]));
                    }
                }
                if i > 0 {
                    let last = v[perm@[i - 1] as int];
                    crate::sort::lemma_sorted_adjacent(kv, perm@, i - 1, i as int);
                    crate::text::lemma_seq_lt_irreflexive(Seq::<char>::empty());
                    assert(last == before.last());
                    assert(crate::text::seq_lt(last, e));
                }
                assert forall|a: int, b: int| 0 <= a < b < obs_id_views(out@).len() implies crate::text::seq_lt(
                    #[trigger] obs_id_views(out@)[a],
                    #[trigger] obs_id_views(out@)[b],
                ) by {
                    if b == obs_id_views(out@).len() - 1 {
                        if i == 0 {
                            assert(before.len() == 0);
                        }
                        let last = v[perm@[i - 1] as int];
                        assert(obs_id_views(out@)[b] == e);
                        assert(obs_id_views(out@)[a] == before[a]);
                        if a < before.len() - 1 {
                            assert(crate::text::seq_lt(before[a], before[before.len() - 1]));
                            crate::text::lemma_seq_lt_transitive(before[a], last, e);
                        }
                    } else {
                        assert(obs_id_views(out@)[a] == before[a]);
                        assert(obs_id_views(out@)[b] == before[b]);
                    }
                }
                assert forall|x: Seq<char>| obs_id_views(out@).contains(x) <==> exists|t: int| 0 <= t < i + 1 && #[trigger] v[perm@[t] as int] == x by {
                    crate::graph::lemma_push_contains_any(before, e, x);
                    if exists|t: int| 0 <= t < i + 1 && #[trigger] v[perm@[t] as int] == x {
                        let t = choose|t: int| 0 <= t < i + 1 && #[trigger] v[perm@[t] as int] == x;
                        if t < i {
                            assert(exists|t2: int| 0 <= t2 < i && #[trigger] v[perm@[t2] as int] == x);
                        }
                    }
                }
            }
        } else {
            proof {
                assert(v[perm@[i as int] as int] == before.last());
                assert(before.contains(before.last()));
                assert forall|x: Seq<char>| obs_id_views(out@).contains(x) <==> exists|t: int| 0 <= t < i + 1 && #[trigger] v[perm@[t] as int] == x by {
                    if exists|t: int| 0 <= t < i + 1 && #[trigger] v[perm@[t] as int] == x {
                        let t = choose|t: int| 0 <= t < i + 1 && #[trigger] v[perm@[t] as int] == x;
                        if t < i {
                            assert(exists|t2: int| 0 <= t2 < i && #[trigger] v[perm@[t2] as int] == x);
                        }
                    }
                }
            }
        }
        i = i + 1;
    }
    proof {
        crate::sort::lemma_perm_covers(kv, perm@);
        assert forall|x: Seq<char>| obs_id_views(out@).contains(x) <==> v.contains(x) by {
            if v.contains(x) {
                let j = choose|j: int| 0 <= j < v.len() && v[j] == x;
                assert(crate::sort::lists_position(perm@, j));
                let t = choose|t: int| 0 <= t < perm@.len() && perm@[t] == j;
                assert(v[perm@[t] as int] == x);
            }
            if exists|t: int| 0 <= t < perm@.len() && #[trigger] v[perm@[t] as int] == x {
                let t = choose|t: int| 0 <= t < perm@.len() && #[trigger] v[perm@[t] as int] == x;
                assert(v[perm@[t] as int] == x);
            }
        }
    }
    out
}

/// Sort keys of supersession identifier and digest pairs.
pub open spec fn pair_keys(p: Seq<(Seq<char>, Seq<char>)>) -> Seq<crate::sort::KeyV> {
    Seq::new(p.len(), |i: int| crate::sort::KeyV { rank: 0, first: p[i].0, second: p[i].1 })
}

/// Sort keys of policy entries: by provider identifier.
pub open spec fn policy_keys(p: Seq<ProviderPolicyEntry>) -> Seq<crate::sort::KeyV> {
    Seq::new(p.len(), |i: int| crate::sort::KeyV { rank: 0, first: p[i].provider_id@, second: Seq::empty() })
}

/// A sequence taken in the order of a permutation.
pub open spec fn reorder<T>(s: Seq<T>, perm: Seq<usize>) -> Seq<T> {
    Seq::new(perm.len(), |i: int| s[perm[i] as int])
}

/// The assessment is Complete and was made for this plan revision and subject.
pub open spec fn candidate_gate(plan: Plan, subject: SubjectRevision, a: PlanAssessment) -> bool {
    &&& a.status == AssessmentStatus::Complete
    &&& a.plan_id@ == plan.id@
    &&& a.plan_revision == plan.revision
    &&& a.subject@ == subject@
}

/// A copy of a policy entry.
fn copy_policy_entry(e: &ProviderPolicyEntry) -> (r: ProviderPolicyEntry)
    ensures
        r.provider_id@ == e.provider_id@,
        r.class@ == e.class@,
        r.allowed_kinds@ == e.allowed_kinds@,
        policy_entry_json(r) == policy_entry_json(*e),
{
    ProviderPolicyEntry { provider_id: e.provider_id.duplicate(), class: e.class.clone(), allowed_kinds: e.allowed_kinds.clone() }
}

impl ClosureCandidate {
    /// Binds a Complete assessment to its plan revision, subject, the digests
    /// of its satisfying observations (by increasing identifier), the
    /// supersession digests and the provider policy (each sorted).
    #[verifier::rlimit(40)]
    pub fn build(
        plan: &Plan,
        subject: SubjectRevision,
        assessment: PlanAssessment,
        observations: &[EvidenceObservation],
        supersessions: &[EvidenceSupersessionRecord],
        policy: Vec<ProviderPolicyEntry>,
        created_at_unix_ms: u64,
    ) -> (r: Result<ClosureCandidate, String>)
        ensures
            match r {
                Ok(c) => {
                    &&& candidate_gate(*plan, subject, assessment)
                    &&& c.plan_id@ == plan.id@
                    &&& c.source_revision == plan.revision
                    &&& c.source_plan_digest@ == json_digest(plan_json(*plan))
                    &&& c.subject@ == subject@
                    &&& c.assessment@ == assessment@
                    &&& ids_strictly_sorted(obs_id_views(c.satisfying_observations@.map_values(|p: (EvidenceObservationId, String)| p.0)))
                    &&& forall|x: Seq<char>| obs_id_views(c.satisfying_observations@.map_values(|p: (EvidenceObservationId, String)| p.0)).contains(x)
                        <==> all_satisfying(assessment@).contains(x)
                    &&& forall|i: int| 0 <= i < c.satisfying_observations@.len() ==> #[trigger] digest_matches(
                        obs_views(observations@),
                        c.satisfying_observations@[i],
                    )
                    &&& exists|perm: Seq<usize>| #[trigger] crate::sort::stably_sorted(pair_keys(supersession_pairs(supersessions@)), perm)
                        && link_pairs(c.supersession_digests@) == reorder(supersession_pairs(supersessions@), perm)
                    &&& exists|perm: Seq<usize>| #[trigger] crate::sort::stably_sorted(policy_keys(policy@), perm)
                        && policy_json(c.provider_policy@) == policy_json(reorder(policy@, perm))
                    &&& c.provider_policy_digest@ == json_digest(policy_json(c.provider_policy@))
                    &&& crate::digest::is_sha256_text(c.source_plan_digest@)
                    &&& crate::digest::is_sha256_text(c.provider_policy_digest@)
                    &&& c.created_at_unix_ms == created_at_unix_ms
                },
                Err(e) => if !candidate_gate(*plan, subject, assessment) {
                    e@ == "closure requires complete assessment for exact plan revision and subject"@
                } else {
                    e@ == "missing satisfying observation"@ && exists|x: Seq<char>| #[trigger] all_satisfying(assessment@).contains(x)
                        && !has_obs(obs_views(observations@), x)
                },
            },
    {
        if assessment.status != AssessmentStatus::Complete || !assessment.plan_id.same(&plan.id)
            || assessment.plan_revision != plan.revision || !assessment.subject.same(&subject) {
            return Err(owned("closure requires complete assessment for exact plan revision and subject"));
        }
        let all = collect_satisfying(&assessment);
        let ids = sorted_unique_ids(&all);
        let mut satisfying: Vec<(EvidenceObservationId, String)> = Vec::new();
        let mut i: usize = 0;
        while i < ids.len()
            invariant
                i <= ids.len(),
                candidate_gate(*plan, subject, assessment),
                obs_id_views(all@) == all_satisfying(assessment@),
                forall|x: Seq<char>| obs_id_views(ids@).contains(x) <==> obs_id_views(all@).contains(x),
                satisfying@.len() == i,
                forall|k: int| 0 <= k < i ==> (#[trigger] satisfying@[k]).0@ == ids@[k]@,
                forall|t: int| 0 <= t < i ==> #[trigger] digest_matches(obs_views(observations@), satisfying@[t]),
            decreases ids.len() - i,
        {
            match find_first(observations, &ids[i]) {
                Some(k) => {
                    satisfying.push((ids[i].duplicate(), owned(observations[k].content_digest())));
                    proof {
                        assert(first_with(obs_views(observations@), satisfying@[i as int].0@, k as int));
                        assert(digest_matches(obs_views(observations@), satisfying@[i as int]));
                    }
                },
                None => {
                    proof {
                        assert(obs_id_views(ids@)[i as int] == ids@[i as int]@);
                        assert(obs_id_views(ids@).contains(ids@[i as int]@));
                        assert(all_satisfying(assessment@).contains(ids@[i as int]@));
                    }
                    return Err(owned("missing satisfying observation"));
                },
            }
            i = i + 1;
        }
        proof {
            assert(obs_id_views(satisfying@.map_values(|p: (EvidenceObservationId, String)| p.0)) =~= obs_id_views(ids@));
        }
        let supersession_digests = sorted_supersession_digests(supersessions);
        let provider_policy = sorted_policy(&policy);
        let provider_policy_digest = digest_json(&policy_to_json(&provider_policy));
        let source_plan_digest = digest_json(&plan_to_json(plan));
        Ok(ClosureCandidate {
            plan_id: plan.id.duplicate(),
            source_revision: plan.revision,
            source_plan_digest,
            subject,
            assessment,
            satisfying_observations: satisfying,
            supersession_digests,
            provider_policy,
            provider_policy_digest,
            created_at_unix_ms,
        })
    }
}

/// The digest recorded for an identifier is that of the first observation carrying it.
pub open spec fn digest_matches(obs: Seq<ObservationV>, p: (EvidenceObservationId, String)) -> bool {
    exists|k: int| first_with(obs, p.0@, k) && p.1@ == obs[k].content_digest
}

/// Identifier and digest pairs of supersession records.
pub open spec fn supersession_pairs(s: Seq<EvidenceSupersessionRecord>) -> Seq<(Seq<char>, Seq<char>)> {
    Seq::new(s.len(), |i: int| (s[i].id@, s[i].content_digest@))
}

/// Index of the first observation carrying an identifier.
pub(crate) fn find_first(obs: &[EvidenceObservation], id: &EvidenceObservationId) -> (r: Option<usize>)
    ensures
        match r {
            Some(k) => first_with(obs_views(obs@), id@, k as int),
            None => !has_obs(obs_views(obs@), id@),
        },
{
    let mut i: usize = 0;
    while i < obs.len()
        invariant
            i <= obs.len(),
            forall|k: int| 0 <= k < i ==> (#[trigger] obs_views(obs@)[k]).id != id@,
        decreases obs.len() - i,
    {
        if obs[i].id().same(id) {
            return Some(i);
        }
        i = i + 1;
    }
    None
}

fn sorted_supersession_digests(s: &[EvidenceSupersessionRecord]) -> (r: Vec<(EvidenceSupersessionId, String)>)
    ensures
        exists|perm: Seq<usize>| #[trigger] crate::sort::stably_sorted(pair_keys(supersession_pairs(s@)), perm)
            && link_pairs(r@) == reorder(supersession_pairs(s@), perm),
{
    let ghost sp = supersession_pairs(s@);
    let mut keys: Vec<crate::sort::SortKey> = Vec::new();
    let mut i: usize = 0;
    while i < s.len()
        invariant
            i <= s.len(),
            sp == supersession_pairs(s@),
            keys@.len() == i,
            forall|k: int| 0 <= k < i ==> (#[trigger] keys@[k])@ == pair_keys(sp)[k],
        decreases s.len() - i,
    {
        keys.push(crate::sort::SortKey { rank: 0, first: s[i].id.to_string(), second: s[i].content_digest.clone() });
        i = i + 1;
    }
    assert(crate::sort::key_views(keys@) =~= pair_keys(sp));
    let perm = crate::sort::stable_order(&keys);
    let mut out: Vec<(EvidenceSupersessionId, String)> = Vec::new();
    let mut i: usize = 0;
    while i < perm.len()
        invariant
            i <= perm.len(),
            sp == supersession_pairs(s@),
            crate::sort::stably_sorted(pair_keys(sp), perm@),
            out@.len() == i,
            forall|k: int| 0 <= k < i ==> (#[trigger] link_pairs(out@)[k]) == reorder(sp, perm@)[k],
        decreases perm.len() - i,
    {
        let p = perm[i];
        let ghost before = out@;
        out.push((s[p].id.duplicate(), s[p].content_digest.clone()));
        proof {
            assert forall|k: int| 0 <= k < i + 1 implies (#[trigger] link_pairs(out@)[k]) == reorder(sp, perm@)[k] by {
                if k < i {
                    assert(link_pairs(before)[k] == reorder(sp, perm@)[k]);
                    assert(out@[k] == before[k]);
                } else {
                    assert(sp[p as int] == (s@[p as int].id@, s@[p as int].content_digest@));
                }
            }
        }
        i = i + 1;
    }
    assert(link_pairs(out@) =~= reorder(sp, perm@));
    out
}

fn sorted_policy(p: &Vec<ProviderPolicyEntry>) -> (r: Vec<ProviderPolicyEntry>)
    ensures
        exists|perm: Seq<usize>| #[trigger] crate::sort::stably_sorted(policy_keys(p@), perm) && policy_json(r@)
            == policy_json(reorder(p@, perm)),
{
    let mut keys: Vec<crate::sort::SortKey> = Vec::new();
    let mut i: usize = 0;
    while i < p.len()
        invariant
            i <= p.len(),
            keys@.len() == i,
            forall|k: int| 0 <= k < i ==> (#[trigger] keys@[k])@ == policy_keys(p@)[k],
        decreases p.len() - i,
    {
        keys.push(crate::sort::SortKey { rank: 0, first: p[i].provider_id.to_string(), second: String::new() });
        i = i + 1;
    }
    assert(crate::sort::key_views(keys@) =~= policy_keys(p@));
    let perm = crate::sort::stable_order(&keys);
    let mut out: Vec<ProviderPolicyEntry> = Vec::new();
    let mut i: usize = 0;
    while i < perm.len()
        invariant
            i <= perm.len(),
            crate::sort::stably_sorted(policy_keys(p@), perm@),
            out@.len() == i,
            forall|k: int| 0 <= k < i ==> policy_entry_json(#[trigger] out@[k]) == policy_entry_json(reorder(p@, perm@)[k]),
        decreases perm.len() - i,
    {
        out.push(copy_policy_entry(&p[perm[i]]));
        i = i + 1;
    }
    assert(policy_json(out@)->Arr_0 =~= policy_json(reorder(p@, perm@))->Arr_0);
    out
}

/// A finalized closure: the candidate bound to the Closed plan revision
/// that follows it.
#[derive(Debug, Clone, PartialEq, Eq)]
pub struct ClosureRecord {
    pub schema_version: u32,
    pub id: ClosureId,
    pub candidate: ClosureCandidate,
    pub final_plan_revision: u64,
    pub final_plan_digest: String,
    pub finalized_at_unix_ms: u64,
    pub content_digest: String,
}

/// The digested content of a closure record: its fields as a JSON array.
pub open spec fn record_content(r: ClosureRecord) -> JsonV {
    JsonV::Arr(
        seq![
            JsonV::Nat(r.schema_version as nat),
            JsonV::Str(r.id@),
            candidate_json(r.candidate),
            JsonV::Nat(r.final_plan_revision as nat),
            JsonV::Str(r.final_plan_digest@),
            JsonV::Nat(r.finalized_at_unix_ms as nat),
        ],
    )
}

/// The final plan is the Closed revision right after the candidate's.
pub open spec fn closes(candidate: ClosureCandidate, final_plan: Plan) -> bool {
    &&& final_plan.id@ == candidate.plan_id@
    &&& final_plan.revision == candidate.source_revision + 1
    &&& final_plan.status == PlanStatus::Closed
}

/// The first rule a closure record breaks against its final plan, as its message.
pub open spec fn closure_fault(r: ClosureRecord, final_plan: Plan) -> Option<Seq<char>> {
    if r.schema_version != 1 || r.candidate.plan_id@ != final_plan.id@ || r.final_plan_revision != final_plan.revision
        || r.final_plan_digest@ != json_digest(plan_json(final_plan)) || final_plan.status != PlanStatus::Closed
        || r.final_plan_revision != r.candidate.source_revision + 1 {
        Some("closure record does not match final plan"@)
    } else if json_digest(policy_json(r.candidate.provider_policy@)) != r.candidate.provider_policy_digest@ {
        Some("closure provider policy digest mismatch"@)
    } else if json_digest(record_content(r)) != r.content_digest@ {
        Some("closure record digest mismatch"@)
    } else {
        None
    }
}

impl ClosureRecord {
    fn content_to_json(&self) -> (j: JsonText)
        ensures
            j.wf(),
            j.value@ == record_content(*self),
    {
        let mut a: Vec<JsonText> = Vec::new();
        push_value(&mut a, JsonText::natural(self.schema_version as u64));
        push_value(&mut a, JsonText::string(self.id.as_str()));
        push_value(&mut a, candidate_to_json(&self.candidate));
        push_value(&mut a, JsonText::natural(self.final_plan_revision));
        push_value(&mut a, JsonText::string(self.final_plan_digest.as_str()));
        push_value(&mut a, JsonText::natural(self.finalized_at_unix_ms));
        proof {
            assert(values_of(a@) =~= record_content(*self)->Arr_0);
        }
        JsonText::array(a)
    }

    /// Seals a candidate against the Closed plan revision that follows it.
    pub fn finalize(
        id: ClosureId,
        candidate: ClosureCandidate,
        final_plan: &Plan,
        finalized_at_unix_ms: u64,
    ) -> (r: Result<ClosureRecord, String>)
        ensures
            match r {
                Ok(rec) => {
                    &&& closes(candidate, *final_plan)
                    &&& rec.schema_version == 1
                    &&& rec.id@ == id@
                    &&& rec.candidate == candidate
                    &&& rec.final_plan_revision == final_plan.revision
                    &&& rec.final_plan_digest@ == json_digest(plan_json(*final_plan))
                    &&& rec.finalized_at_unix_ms == finalized_at_unix_ms
                    &&& rec.content_digest@ == json_digest(record_content(rec))
                    &&& crate::digest::is_sha256_text(rec.final_plan_digest@)
                    &&& crate::digest::is_sha256_text(rec.content_digest@)
                },
                Err(e) => !closes(candidate, *final_plan) && e@ == "invalid closure target plan"@,
            },
    {
        if !final_plan.id.same(&candidate.plan_id) || candidate.source_revision == u64::MAX || final_plan.revision
            != candidate.source_revision + 1 || final_plan.status != PlanStatus::Closed {
            return Err(owned("invalid closure target plan"));
        }
        let final_plan_digest = digest_json(&plan_to_json(final_plan));
        let mut record = ClosureRecord {
            schema_version: 1,
            id,
            candidate,
            final_plan_revision: final_plan.revision,
            final_plan_digest,
            finalized_at_unix_ms,
            content_digest: String::new(),
        };
        record.content_digest = digest_json(&record.content_to_json());
        Ok(record)
    }

    /// Checks the record against its final plan (see `closure_fault`).
    pub fn validate(&self, final_plan: &Plan) -> (r: Result<(), String>)
        ensures
            match r {
                Ok(()) => closure_fault(*self, *final_plan) is None,
                Err(e) => closure_fault(*self, *final_plan) == Some(e@),
            },
    {
        let plan_digest = digest_json(&plan_to_json(final_plan));
        if self.schema_version != 1 || !self.candidate.plan_id.same(&final_plan.id) || self.final_plan_revision
            != final_plan.revision || plan_digest != self.final_plan_digest || final_plan.status != PlanStatus::Closed
            || self.candidate.source_revision == u64::MAX || self.final_plan_revision != self.candidate.source_revision
            + 1 {
            return Err(owned("closure record does not match final plan"));
        }
        if digest_json(&policy_to_json(&self.candidate.provider_policy)) != self.candidate.provider_policy_digest {
            return Err(owned("closure provider policy digest mismatch"));
        }
        if digest_json(&self.content_to_json()) != self.content_digest {
            return Err(owned("closure record digest mismatch"));
        }
        Ok(())
    }
}

/// A record as `EvidenceSupersessionRecord::new` seals it passes validation.
pub proof fn lemma_sealed_supersession_validates(r: EvidenceSupersessionRecord)
    requires
        r.schema_version == 1,
        link_ok(r.superseded@, r.replacement@, r.reason@),
        r.content_digest@ == json_digest(supersession_content(r)),
    ensures
        record_fault(r) is None,
{
}

/// A record as `ClosureRecord::finalize` seals it, over a candidate as
/// `ClosureCandidate::build` makes it, passes validation against the same
/// final plan.
pub proof fn lemma_finalized_closure_validates(r: ClosureRecord, final_plan: Plan)
    requires
        closes(r.candidate, final_plan),
        r.schema_version == 1,
        r.final_plan_revision == final_plan.revision,
        r.final_plan_digest@ == json_digest(plan_json(final_plan)),
        r.candidate.provider_policy_digest@ == json_digest(policy_json(r.candidate.provider_policy@)),
        r.content_digest@ == json_digest(record_content(r)),
    ensures
        closure_fault(r, final_plan) is None,
{
}

} // verus!
